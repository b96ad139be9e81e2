//! The proof-of-work challenge that a busy site answers with: reading it off the page,
//! solving it, and the cookies that carry the solution.

use vstd::prelude::*;
use vstd::slice::slice_subrange;
use vstd::utf8::encode_utf8;

use crate::number::{
    decimal, digit_value, hexadecimal, law_hex_digits, law_hexadecimal_reads_back, parse_unsigned,
    push_decimal, read_hex, seconds, seconds_text, value_of_digit,
};
use crate::text::{
    chars_of, concat, find, find_chars, is_whitespace, join, join_texts, law_strip_copies, law_trim,
    lemma_find_behind, lemma_find_first_char, lemma_unbordered, lemma_unbordered_by_last, occurs_at,
    opt_view, pair_view, pair_views, same_text, split, split_chars, string_of, strip_copies,
    strip_leading_copies, texts, trim, trim_chars, views, CharClass,
};

verus! {

/// A challenge: the token to be extended, and where in the digest the mark is looked for.
pub struct Challenge {
    pub token: String,
    pub check_offset: usize,
}

const ARRAY_MARKER: &'static str = "const a0_0x2a54=['";

const SHUFFLE_MARKER: &'static str = "_0x4457dc(++_0x2a548e);}(a0_0x2a54,";

// ---------------------------------------------------------------------------
// Reading the page
// ---------------------------------------------------------------------------

/// How far the array of the page is rotated: the hexadecimal number behind the call that
/// rotates it.
pub open spec fn shuffle_count(s: Seq<char>) -> Option<nat> {
    match find(s, "_0x4457dc(++_0x2a548e);}(a0_0x2a54,"@) {
        Some(i) => {
            let behind = s.skip(i + "_0x4457dc(++_0x2a548e);}(a0_0x2a54,"@.len());
            match find(behind, ")"@) {
                Some(end) => parse_unsigned(
                    strip_copies(trim(behind.take(end), CharClass::Whitespace), "0x"@),
                    16,
                    usize::MAX as nat,
                ),
                None => None,
            }
        },
        None => None,
    }
}

/// The items of an array as the page writes it, between its outer quotes.
pub open spec fn array_items(s: Seq<char>) -> Seq<Seq<char>> {
    split(s, "','"@).map_values(|item: Seq<char>| trim(item, CharClass::Only('\'')))
}

/// The item with the given index in the page's array of three, counted after the rotation.
pub open spec fn js_array_item(html: Seq<char>, index: nat) -> Option<Seq<char>> {
    match find(html, "const a0_0x2a54=['"@) {
        Some(i) => {
            let remaining = html.skip(i + "const a0_0x2a54=['"@.len());
            match find(remaining, "'];"@) {
                Some(end) => {
                    let items = array_items(remaining.take(end));
                    match shuffle_count(remaining.skip(end)) {
                        Some(count) => if items.len() == 3 {
                            Some(items[((index + count) % 3) as int])
                        } else {
                            None
                        },
                        None => None,
                    }
                },
                None => None,
            }
        },
        None => None,
    }
}

/// The challenge on a page: its token, and the offset that the token's first digit gives.
pub open spec fn page_challenge(html: Seq<char>) -> Option<(Seq<char>, nat)> {
    match js_array_item(html, 2) {
        Some(token) => if token.len() >= 2 {
            match digit_value(token[0], 16) {
                Some(offset) => Some((token, offset)),
                None => None,
            }
        } else {
            None
        },
        None => None,
    }
}

/// Reads how far the array of the page is rotated.
pub fn parse_shuffle_count(s: &[char]) -> (r: Option<usize>)
    ensures
        match r {
            Some(n) => shuffle_count(s@) == Some(n as nat),
            None => shuffle_count(s@) is None,
        },
{
    let marker = chars_of(SHUFFLE_MARKER);
    let i: usize = match find_chars(s, &marker) {
        Some(i) => i,
        None => {
            return None;
        },
    };
    let behind = slice_subrange(s, i + marker.len(), s.len());
    assert(behind@ =~= s@.skip(i + marker@.len()));
    let close = chars_of(")");
    let end: usize = match find_chars(behind, &close) {
        Some(end) => end,
        None => {
            return None;
        },
    };
    let number = slice_subrange(behind, 0, end);
    assert(number@ =~= behind@.take(end as int));
    proof {
        reveal_strlit("0x");
    }
    let trimmed = trim_chars(number, CharClass::Whitespace);
    read_hex(strip_leading_copies(trimmed, "0x"))
}

/// Reads the item with the given index off the page's array of three.
pub fn extract_js_array(html: &str, index: usize) -> (r: Option<String>)
    ensures
        match r {
            Some(item) => js_array_item(html@, index as nat) == Some(item@),
            None => js_array_item(html@, index as nat) is None,
        },
{
    let page = chars_of(html);
    let marker = chars_of(ARRAY_MARKER);
    let i: usize = match find_chars(&page, &marker) {
        Some(i) => i,
        None => {
            return None;
        },
    };
    let remaining = slice_subrange(&page, i + marker.len(), page.len());
    assert(remaining@ =~= page@.skip(i + marker@.len()));
    let close = chars_of("'];");
    let end: usize = match find_chars(remaining, &close) {
        Some(end) => end,
        None => {
            return None;
        },
    };
    let array = slice_subrange(remaining, 0, end);
    assert(array@ =~= remaining@.take(end as int));
    let sep = chars_of("','");
    proof {
        reveal_strlit("','");
    }
    let pieces = split_chars(array, &sep);
    let ghost items = array_items(array@);
    assert(items.len() == pieces@.len());
    if pieces.len() != 3 {
        return None;
    }
    let tail = slice_subrange(remaining, end, remaining.len());
    assert(tail@ =~= remaining@.skip(end as int));
    match parse_shuffle_count(tail) {
        Some(count) => {
            let turned: usize = (index % 3 + count % 3) % 3;
            assert(turned == (index + count) % 3);
            assert(views(pieces@)[turned as int] == pieces@[turned as int]@);
            assert(items[turned as int] == trim(
                pieces@[turned as int]@,
                CharClass::Only('\''),
            ));
            Some(string_of(trim_chars(&pieces[turned], CharClass::Only('\''))))
        },
        None => None,
    }
}

/// Reads the challenge off a page.
///
/// A token whose first character is no hexadecimal digit is no challenge, whatever the
/// character is.
pub fn parse_challenge(html: &str) -> (r: Option<Challenge>)
    ensures
        match r {
            Some(c) => page_challenge(html@) == Some((c.token@, c.check_offset as nat))
                && c.check_offset < 16,
            None => page_challenge(html@) is None,
        },
{
    let token = match extract_js_array(html, 2) {
        Some(token) => token,
        None => {
            return None;
        },
    };
    let chars = chars_of(token.as_str());
    if chars.len() < 2 {
        return None;
    }
    match value_of_digit(chars[0], 16) {
        Some(v) => Some(Challenge { token, check_offset: v as usize }),
        None => None,
    }
}

// ---------------------------------------------------------------------------
// Solving
// ---------------------------------------------------------------------------

/// The SHA-1 digest of some bytes.
pub uninterp spec fn sha1_digest(data: Seq<u8>) -> Seq<u8>;

/// `Sha1::digest` of the `sha1` crate: the twenty bytes of the digest.
#[verifier::external_body]
fn sha1(data: &[u8]) -> (r: Vec<u8>)
    ensures
        r@ == sha1_digest(data@),
        r@.len() == 20,
{
    <sha1::Sha1 as sha1::Digest>::digest(data).to_vec()
}

/// Whether a digest carries the mark at the given offset.
pub open spec fn marked(digest: Seq<u8>, offset: nat) -> bool {
    digest[offset as int] == 0xB0 && digest[offset as int + 1] == 0x0B
}

/// Whether the number `i`, written behind the token, makes a digest that carries the mark.
pub open spec fn is_solution(token: Seq<char>, offset: nat, i: nat) -> bool {
    marked(sha1_digest(encode_utf8(token + decimal(i))), offset)
}

/// Whether a digest carries the mark at the given offset.
pub fn has_mark(digest: &Vec<u8>, offset: usize) -> (r: bool)
    requires
        offset + 1 < digest.len(),
    ensures
        r == marked(digest@, offset as nat),
{
    digest[offset] == 0xB0 && digest[offset + 1] == 0x0B
}

/// Finds the smallest number that solves the challenge; none where no 64-bit number does.
pub fn solve(challenge: &Challenge) -> (r: Option<u64>)
    requires
        challenge.check_offset <= 18,
    ensures
        match r {
            Some(i) => is_solution(challenge.token@, challenge.check_offset as nat, i as nat)
                && forall|j: nat|
                j < i ==> !is_solution(challenge.token@, challenge.check_offset as nat, j),
            None => forall|j: nat|
                j <= u64::MAX ==> !is_solution(
                    challenge.token@,
                    challenge.check_offset as nat,
                    j,
                ),
        },
{
    let mut i: u64 = 0;
    loop
        invariant
            challenge.check_offset <= 18,
            forall|j: nat|
                j < i ==> !is_solution(challenge.token@, challenge.check_offset as nat, j),
        decreases u64::MAX - i,
    {
        let mut input = challenge.token.clone();
        push_decimal(i, &mut input);
        let digest = sha1(input.as_str().as_bytes());
        if has_mark(&digest, challenge.check_offset) {
            return Some(i);
        }
        assert(!is_solution(challenge.token@, challenge.check_offset as nat, i as nat));
        if i == u64::MAX {
            return None;
        }
        i += 1;
    }
}

// ---------------------------------------------------------------------------
// The solution as a cookie
// ---------------------------------------------------------------------------

/// The parts of a cookie that names an account.
pub open spec fn account_parts(account: Option<(Seq<char>, Seq<char>)>) -> Seq<Seq<char>> {
    match account {
        Some((uid, ukey)) => seq!["remix_userid="@ + uid, "remix_userkey="@ + ukey],
        None => seq![],
    }
}

/// The cookie with which a solution is sent.
pub open spec fn challenge_cookie(
    token: Seq<char>,
    solution: u64,
    elapsed_ms: u64,
    account: Option<(Seq<char>, Seq<char>)>,
) -> Seq<char> {
    join(
        seq![
            "c_token="@ + token + decimal(solution as nat) + "; c_time="@ + seconds(elapsed_ms),
        ] + account_parts(account) + seq!["selectedSiteMode=books"@],
        "; "@,
    )
}

/// A name and a value with an equals sign between them.
fn name_value(name: &str, value: &str) -> (r: String)
    ensures
        r@ == name@ + "="@ + value@,
{
    let mut out = concat(name, "=");
    out.append(value);
    out
}

/// Appends the parts that name an account.
pub fn push_account(parts: &mut Vec<String>, uid: &str, ukey: &str)
    ensures
        texts(final(parts)@) == texts(old(parts)@) + account_parts(Some((uid@, ukey@))),
{
    parts.push(concat("remix_userid=", uid));
    parts.push(concat("remix_userkey=", ukey));
    assert(texts(parts@) =~= texts(old(parts)@) + account_parts(Some((uid@, ukey@))));
}

/// Builds the cookie with which a solution is sent; `account` is a user id with its key.
pub fn build_challenge_cookie(
    challenge: &Challenge,
    solution: u64,
    elapsed_ms: u64,
    account: Option<(&str, &str)>,
) -> (r: String)
    ensures
        r@ == challenge_cookie(challenge.token@, solution, elapsed_ms, pair_view(account)),
{
    let mut first = concat("c_token=", challenge.token.as_str());
    push_decimal(solution, &mut first);
    first.append("; c_time=");
    let clock = seconds_text(elapsed_ms);
    first.append(clock.as_str());
    let mut parts: Vec<String> = Vec::new();
    parts.push(first);
    let ghost head = seq![first@];
    assert(texts(parts@) =~= head);
    if let Some((uid, ukey)) = account {
        push_account(&mut parts, uid, ukey);
    }
    assert(texts(parts@) =~= head + account_parts(pair_view(account)));
    let ghost so_far = texts(parts@);
    parts.push("selectedSiteMode=books".to_string());
    assert(texts(parts@) =~= so_far.push("selectedSiteMode=books"@));
    assert(texts(parts@) =~= head + account_parts(pair_view(account)) + seq![
        "selectedSiteMode=books"@,
    ]);
    join_texts(&parts, "; ")
}

// ---------------------------------------------------------------------------
// The challenge cookies that all requests share
// ---------------------------------------------------------------------------

/// The challenge cookies in force.
pub struct ChallengeCookies {
    pub c_token: Option<String>,
    pub c_time: Option<String>,
    pub bsrv: Option<String>,
}

/// The model of the challenge cookies.
pub struct CookiesView {
    pub c_token: Option<Seq<char>>,
    pub c_time: Option<Seq<char>>,
    pub bsrv: Option<Seq<char>>,
}

impl View for ChallengeCookies {
    type V = CookiesView;

    open spec fn view(&self) -> CookiesView {
        CookiesView {
            c_token: opt_view(self.c_token),
            c_time: opt_view(self.c_time),
            bsrv: opt_view(self.bsrv),
        }
    }
}

impl CookiesView {
    /// The cookies after one was set; a name that is no challenge cookie changes nothing.
    pub open spec fn set(self, name: Seq<char>, value: Seq<char>) -> CookiesView {
        if name == "c_token"@ {
            CookiesView { c_token: Some(value), ..self }
        } else if name == "c_time"@ {
            CookiesView { c_time: Some(value), ..self }
        } else if name == "bsrv"@ {
            CookiesView { bsrv: Some(value), ..self }
        } else {
            self
        }
    }

    /// The cookies after several were set, one after the other.
    pub open spec fn set_all(self, pairs: Seq<(Seq<char>, Seq<char>)>) -> CookiesView
        decreases pairs.len(),
    {
        if pairs.len() == 0 {
            self
        } else {
            self.set_all(pairs.drop_last()).set(pairs.last().0, pairs.last().1)
        }
    }

    /// The cookies that are set, each as `name=value`.
    pub open spec fn segments(self) -> Seq<Seq<char>> {
        segment("c_token"@, self.c_token) + segment("c_time"@, self.c_time) + segment(
            "bsrv"@,
            self.bsrv,
        )
    }

    /// The cookies as a request carries them.
    pub open spec fn text(self) -> Seq<char> {
        join(self.segments(), "; "@)
    }
}

/// One cookie as `name=value`, where it is set.
pub open spec fn segment(name: Seq<char>, value: Option<Seq<char>>) -> Seq<Seq<char>> {
    match value {
        Some(v) => seq![name + "="@ + v],
        None => seq![],
    }
}

/// Appends a cookie as `name=value`, where it is set.
fn push_segment(parts: &mut Vec<String>, name: &str, value: &Option<String>)
    ensures
        texts(final(parts)@) == texts(old(parts)@) + segment(name@, opt_view(*value)),
{
    if let Some(v) = value {
        parts.push(name_value(name, v.as_str()));
    }
    assert(texts(parts@) =~= texts(old(parts)@) + segment(name@, opt_view(*value)));
}

impl ChallengeCookies {
    /// No challenge cookie is set.
    pub fn new() -> (r: Self)
        ensures
            r@ == (CookiesView { c_token: None, c_time: None, bsrv: None }),
    {
        ChallengeCookies { c_token: None, c_time: None, bsrv: None }
    }

    /// Sets one challenge cookie; other names are passed over.
    fn set(&mut self, name: &str, value: &String)
        ensures
            final(self)@ == old(self)@.set(name@, value@),
    {
        if same_text(name, "c_token") {
            self.c_token = Some(value.clone());
        } else if same_text(name, "c_time") {
            self.c_time = Some(value.clone());
        } else if same_text(name, "bsrv") {
            self.bsrv = Some(value.clone());
        }
    }

    /// Takes over the challenge cookies among the given pairs.
    pub fn update_challenge(&mut self, pairs: &Vec<(String, String)>)
        ensures
            final(self)@ == old(self)@.set_all(pair_views(pairs@)),
    {
        let ghost all = pair_views(pairs@);
        let mut i: usize = 0;
        while i < pairs.len()
            invariant
                i <= pairs@.len(),
                all == pair_views(pairs@),
                self@ == old(self)@.set_all(all.take(i as int)),
            decreases pairs@.len() - i,
        {
            assert(all.take(i + 1).drop_last() =~= all.take(i as int));
            assert(all.take(i + 1).last() == (pairs@[i as int].0@, pairs@[i as int].1@));
            self.set(pairs[i].0.as_str(), &pairs[i].1);
            i += 1;
        }
        assert(all.take(all.len() as int) =~= all);
    }

    /// The cookies as a request carries them.
    pub fn cookie_str(&self) -> (r: String)
        ensures
            r@ == self@.text(),
    {
        let mut parts: Vec<String> = Vec::new();
        assert(texts(parts@) =~= seq![]);
        push_segment(&mut parts, "c_token", &self.c_token);
        push_segment(&mut parts, "c_time", &self.c_time);
        push_segment(&mut parts, "bsrv", &self.bsrv);
        assert(texts(parts@) =~= self@.segments());
        join_texts(&parts, "; ")
    }
}

// ---------------------------------------------------------------------------
// Laws
// ---------------------------------------------------------------------------

/// A page with a challenge: an array of three items, and the call that rotates it `n` times.
pub open spec fn challenge_page(
    pre: Seq<char>,
    items: (Seq<char>, Seq<char>, Seq<char>),
    mid: Seq<char>,
    n: nat,
    post: Seq<char>,
) -> Seq<char> {
    pre + "const a0_0x2a54=['"@ + items.0 + "','"@ + items.1 + "','"@ + items.2 + "'];"@ + mid
        + "_0x4457dc(++_0x2a548e);}(a0_0x2a54,"@ + "0x"@ + hexadecimal(n) + ")"@ + post
}

/// Whether the marks of a challenge stand on the page only where they belong.
pub open spec fn is_challenge_page(
    pre: Seq<char>,
    items: (Seq<char>, Seq<char>, Seq<char>),
    mid: Seq<char>,
    n: nat,
) -> bool {
    &&& find(pre, "const a0_0x2a54=['"@) is None
    &&& !items.0.contains('\'') && !items.1.contains('\'') && !items.2.contains('\'')
    &&& find(items.0 + "','"@ + items.1 + "','"@ + items.2, "'];"@) is None
    &&& find("'];"@ + mid, "_0x4457dc(++_0x2a548e);}(a0_0x2a54,"@) is None
    &&& n <= usize::MAX
}

/// A text without the character is not trimmed of it.
proof fn lemma_not_trimmed(s: Seq<char>, c: char)
    requires
        !s.contains(c),
    ensures
        trim(s, CharClass::Only(c)) == s,
{
    let class = CharClass::Only(c);
    let none: Seq<char> = seq![];
    if s.len() > 0 {
        assert(s.contains(s[0]));
        assert(s.contains(s[s.len() - 1]));
        law_trim(none, s, none, class);
        assert(none + s + none =~= s);
    }
}

/// Three items without quotes are read off the text of their array.
proof fn lemma_array_of_three(items: (Seq<char>, Seq<char>, Seq<char>))
    requires
        !items.0.contains('\'') && !items.1.contains('\'') && !items.2.contains('\''),
    ensures
        array_items(items.0 + "','"@ + items.1 + "','"@ + items.2) == seq![
            items.0,
            items.1,
            items.2,
        ],
{
    reveal_strlit("','");
    let sep = "','"@;
    let rest = items.1 + sep + items.2;
    let s = items.0 + sep + items.1 + sep + items.2;
    assert(s =~= items.0 + sep + rest);
    lemma_find_first_char(items.0, sep, rest);
    lemma_find_first_char(items.1, sep, items.2);
    lemma_find_first_char(items.2, sep, seq![]);
    assert(s.take(items.0.len() as int) =~= items.0);
    assert(s.skip(items.0.len() as int + sep.len()) =~= rest);
    assert(rest.take(items.1.len() as int) =~= items.1);
    assert(rest.skip(items.1.len() as int + sep.len()) =~= items.2);
    assert(split(items.2, sep) == seq![items.2]);
    assert(split(rest, sep) == seq![items.1] + seq![items.2]);
    assert(split(s, sep) =~= seq![items.0, items.1, items.2]);
    lemma_not_trimmed(items.0, '\'');
    lemma_not_trimmed(items.1, '\'');
    lemma_not_trimmed(items.2, '\'');
    assert(array_items(s) =~= seq![items.0, items.1, items.2]);
}

/// The number of rotations is read behind the call that makes them.
proof fn lemma_count_is_read(lead: Seq<char>, n: nat, post: Seq<char>)
    requires
        find(lead, "_0x4457dc(++_0x2a548e);}(a0_0x2a54,"@) is None,
        n <= usize::MAX,
    ensures
        shuffle_count(
            lead + "_0x4457dc(++_0x2a548e);}(a0_0x2a54,"@ + ("0x"@ + hexadecimal(n) + ")"@ + post),
        ) == Some(n),
{
    reveal_strlit("_0x4457dc(++_0x2a548e);}(a0_0x2a54,");
    reveal_strlit("0x");
    reveal_strlit(")");
    let marker = "_0x4457dc(++_0x2a548e);}(a0_0x2a54,"@;
    let h = hexadecimal(n);
    let number = "0x"@ + h;
    let behind = number + ")"@ + post;
    assert("0x"@ + h + ")"@ + post =~= behind);
    let s = lead + marker + behind;
    lemma_unbordered_by_last(marker);
    lemma_find_behind(lead, marker, behind);
    assert(s.skip(lead.len() as int + marker.len()) =~= behind);
    law_hexadecimal_reads_back(n, usize::MAX as nat);
    assert forall|i: int| 0 <= i < number.len() implies number[i] != ')' && !is_whitespace(
        #[trigger] number[i],
    ) by {
        if i >= 2 {
            assert(number[i] == h[i - 2]);
            assert(digit_value(h[i - 2], 16) is Some);
        }
    }
    lemma_find_first_char(number, ")"@, post);
    assert(behind.take(number.len() as int) =~= number);
    let none: Seq<char> = seq![];
    law_trim(none, number, none, CharClass::Whitespace);
    assert(none + number + none =~= number);
    if occurs_at(h, "0x"@, 0) {
        assert(h.subrange(0, 2)[1] == h[1]);
        assert(digit_value(h[1], 16) is Some);
    }
    law_strip_copies("0x"@, h);
}

/// A page that rotates its array of three `n` times gives the challenge whose token is the
/// item that then stands last, with all its characters, and whose offset is the place of the
/// token's first character among the sixteen hexadecimal digits. So every offset from 0 to
/// 15 is met, and different first digits have different offsets.
#[verifier::rlimit(40)]
pub proof fn law_page_gives_its_challenge(
    pre: Seq<char>,
    items: (Seq<char>, Seq<char>, Seq<char>),
    mid: Seq<char>,
    n: nat,
    post: Seq<char>,
    token: Seq<char>,
    k: int,
)
    requires
        is_challenge_page(pre, items, mid, n),
        n % 3 == 0 ==> token == items.2,
        n % 3 == 1 ==> token == items.0,
        n % 3 == 2 ==> token == items.1,
        token.len() >= 2,
        0 <= k < 16,
        token[0] == "0123456789abcdef"@[k] || token[0] == "0123456789ABCDEF"@[k],
    ensures
        page_challenge(challenge_page(pre, items, mid, n, post)) == Some((token, k as nat)),
{
    reveal_strlit("const a0_0x2a54=['");
    reveal_strlit("'];");
    let open = "const a0_0x2a54=['"@;
    let close = "'];"@;
    let marker = "_0x4457dc(++_0x2a548e);}(a0_0x2a54,"@;
    let array = items.0 + "','"@ + items.1 + "','"@ + items.2;
    let tail = close + mid + marker + ("0x"@ + hexadecimal(n) + ")"@ + post);
    let behind = mid + marker + ("0x"@ + hexadecimal(n) + ")"@ + post);
    let remaining = array + close + behind;
    let page = challenge_page(pre, items, mid, n, post);
    assert(page =~= pre + open + remaining);
    lemma_unbordered(open);
    lemma_unbordered(close);
    lemma_find_behind(pre, open, remaining);
    assert(page.skip(pre.len() as int + open.len()) =~= remaining);
    lemma_find_behind(array, close, behind);
    assert(remaining.take(array.len() as int) =~= array);
    assert(remaining.skip(array.len() as int) =~= tail);
    lemma_array_of_three(items);
    lemma_count_is_read(close + mid, n, post);
    law_hex_digits(token[0], k);
    assert(js_array_item(page, 2) == Some(token));
}

/// A page without the array holds no challenge. The offset of a challenge is always the value
/// of the first of at least two characters of its token.
pub proof fn law_pages_without_challenge(html: Seq<char>)
    ensures
        find(html, "const a0_0x2a54=['"@) is None ==> page_challenge(html) is None,
        page_challenge(html) matches Some((token, offset)) ==> token.len() >= 2 && offset < 16 && (
        token[0] == "0123456789abcdef"@[offset as int] || token[0]
            == "0123456789ABCDEF"@[offset as int]),
{
    if let Some((token, offset)) = page_challenge(html) {
        law_hex_digits(token[0], 0);
        law_hex_digits(token[0], offset as int);
    }
}

/// A number solves a challenge if the digest of the token with the number behind it holds the
/// byte B0 at the offset and the byte 0B behind that one, and only then.
pub proof fn law_solutions_make_the_mark(token: Seq<char>, offset: nat, i: nat, digest: Seq<u8>)
    requires
        digest == sha1_digest(encode_utf8(token + decimal(i))),
        offset + 1 < digest.len(),
    ensures
        is_solution(token, offset, i) <==> digest.subrange(offset as int, offset as int + 2)
            == seq![176u8, 11u8],
{
    let pair = digest.subrange(offset as int, offset as int + 2);
    assert(pair[0] == digest[offset as int] && pair[1] == digest[offset as int + 1]);
    if is_solution(token, offset, i) {
        assert(pair =~= seq![176u8, 11u8]);
    }
}

/// Setting a challenge cookie sets that one and leaves the other two; any other name leaves
/// all three.
pub proof fn law_cookies_are_set_by_name(jar: CookiesView, name: Seq<char>, value: Seq<char>)
    ensures
        jar.set("c_token"@, value).c_token == Some(value),
        jar.set("c_time"@, value).c_time == Some(value),
        jar.set("bsrv"@, value).bsrv == Some(value),
        name != "c_token"@ ==> jar.set(name, value).c_token == jar.c_token,
        name != "c_time"@ ==> jar.set(name, value).c_time == jar.c_time,
        name != "bsrv"@ ==> jar.set(name, value).bsrv == jar.bsrv,
{
    reveal_strlit("c_token");
    reveal_strlit("c_time");
    reveal_strlit("bsrv");
    assert("c_token"@.len() != "c_time"@.len());
    assert("c_token"@.len() != "bsrv"@.len());
    assert("c_time"@.len() != "bsrv"@.len());
}

/// Pairs are set one after the other, so that the last one of a name counts.
pub proof fn law_last_cookie_counts(
    jar: CookiesView,
    pairs: Seq<(Seq<char>, Seq<char>)>,
    name: Seq<char>,
    value: Seq<char>,
)
    ensures
        jar.set_all(pairs.push((name, value))) == jar.set_all(pairs).set(name, value),
        jar.set_all(seq![]) == jar,
{
    assert(pairs.push((name, value)).drop_last() =~= pairs);
}

/// Each challenge cookie is seen under its own name, and an account as its id and its key.
pub proof fn law_cookies_are_seen_one_by_one(jar: ChallengeCookies, uid: &str, ukey: &str)
    ensures
        jar@.c_token == opt_view(jar.c_token),
        jar@.c_time == opt_view(jar.c_time),
        jar@.bsrv == opt_view(jar.bsrv),
        pair_view(Some((uid, ukey))) == Some((uid@, ukey@)),
        pair_view(None) is None,
{
}

} // verus!
