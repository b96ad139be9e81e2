//! Cookie texts: taking them apart, and putting fresh cookies in the place of old ones.

use vstd::prelude::*;
use vstd::slice::slice_subrange;

use crate::client::challenge::{account_parts, challenge_cookie, CookiesView};
use crate::number::{decimal, lemma_decimal_is_digits, seconds, shown_millis, three_digits};
use crate::text::{
    before, chars_of, cut_before, find, find_chars, join, join_chars, join_texts,
    law_join_of_append, law_split_of_append, law_split_of_join, law_split_parts_are_clean,
    lemma_find_first_char, lemma_find_is, lemma_find_least, lemma_find_none, lemma_find_single,
    lemma_unbordered, occurs_at, opt_view, pair_views, same_text, split, split_chars, string_of,
    texts, unbordered, views,
};

verus! {

// ---------------------------------------------------------------------------
// Model
// ---------------------------------------------------------------------------

/// The pairs among some cookie segments; a segment without an equals sign is passed over.
pub open spec fn segment_pairs(segments: Seq<Seq<char>>) -> Seq<(Seq<char>, Seq<char>)>
    decreases segments.len(),
{
    if segments.len() == 0 {
        seq![]
    } else {
        let front = segment_pairs(segments.drop_last());
        let s = segments.last();
        match find(s, "="@) {
            Some(i) => front.push((s.take(i), s.skip(i + 1))),
            None => front,
        }
    }
}

/// The names and values in a cookie text.
pub open spec fn cookie_pairs(cookie: Seq<char>) -> Seq<(Seq<char>, Seq<char>)> {
    segment_pairs(split(cookie, "; "@))
}

/// Whether a cookie segment belongs to the challenge.
pub open spec fn is_challenge_segment(segment: Seq<char>) -> bool {
    let name = before(segment, "="@);
    name == "c_token"@ || name == "c_time"@ || name == "bsrv"@
}

/// The segments that belong, or do not belong, to the challenge.
pub open spec fn pick_segments(segments: Seq<Seq<char>>, challenge: bool) -> Seq<Seq<char>>
    decreases segments.len(),
{
    if segments.len() == 0 {
        seq![]
    } else {
        let front = pick_segments(segments.drop_last(), challenge);
        if is_challenge_segment(segments.last()) == challenge {
            front.push(segments.last())
        } else {
            front
        }
    }
}

/// An old cookie text without its challenge cookies, then the fresh ones.
pub open spec fn refreshed_cookie(old_text: Seq<char>, fresh: Seq<char>) -> Seq<char> {
    let kept = join(pick_segments(split(old_text, "; "@), false), "; "@);
    if kept.len() == 0 {
        fresh
    } else {
        kept + "; "@ + fresh
    }
}

/// The cookies that responses set, without their attributes; empty ones are passed over.
pub open spec fn issued_cookies(lines: Seq<Seq<char>>) -> Seq<Seq<char>>
    decreases lines.len(),
{
    if lines.len() == 0 {
        seq![]
    } else {
        let front = issued_cookies(lines.drop_last());
        let cookie = before(lines.last(), ";"@);
        if cookie.len() == 0 {
            front
        } else {
            front.push(cookie)
        }
    }
}

/// The cookie text of a request that follows a redirect: the one before, then the cookies
/// that came with the redirect.
pub open spec fn extended_cookie(
    old_text: Option<Seq<char>>,
    cookies: Seq<Seq<char>>,
) -> Seq<char> {
    match old_text {
        Some(s) => s + "; "@ + join(cookies, "; "@),
        None => join(cookies, "; "@),
    }
}

// ---------------------------------------------------------------------------
// Code
// ---------------------------------------------------------------------------

/// The segments of a cookie text.
fn segments_of(cookie: &str) -> (r: Vec<Vec<char>>)
    ensures
        views(r@) == split(cookie@, "; "@),
{
    proof {
        reveal_strlit("; ");
    }
    let sep = chars_of("; ");
    let chars = chars_of(cookie);
    split_chars(&chars, &sep)
}

/// Takes a cookie text apart into names and values.
pub fn parse_pairs(cookie: &str) -> (r: Vec<(String, String)>)
    ensures
        pair_views(r@) == cookie_pairs(cookie@),
{
    let segments = segments_of(cookie);
    let equals = chars_of("=");
    let ghost all = views(segments@);
    let mut out: Vec<(String, String)> = Vec::new();
    let mut i: usize = 0;
    assert(all.take(0) =~= seq![]);
    assert(pair_views(out@) =~= segment_pairs(all.take(0)));
    proof {
        reveal_strlit("=");
    }
    while i < segments.len()
        invariant
            i <= segments@.len(),
            all == views(segments@),
            equals@ == "="@,
            "="@.len() == 1,
            pair_views(out@) == segment_pairs(all.take(i as int)),
        decreases segments@.len() - i,
    {
        let ghost front = out@;
        let s = &segments[i];
        assert(all.take(i + 1).drop_last() =~= all.take(i as int));
        assert(all.take(i + 1).last() == s@);
        match find_chars(s, &equals) {
            Some(k) => {
                let name = slice_subrange(s, 0, k);
                let value = slice_subrange(s, k + 1, s.len());
                assert(name@ =~= s@.take(k as int));
                assert(value@ =~= s@.skip(k + 1));
                out.push((string_of(name), string_of(value)));
                assert(pair_views(out@) =~= pair_views(front).push((name@, value@)));
            },
            None => {},
        }
        i += 1;
    }
    assert(all.take(all.len() as int) =~= all);
    out
}

/// Whether a cookie segment belongs to the challenge.
fn belongs_to_challenge(segment: &Vec<char>) -> (r: bool)
    ensures
        r == is_challenge_segment(segment@),
{
    let name = cut_before(segment, "=");
    same_text(name.as_str(), "c_token") || same_text(name.as_str(), "c_time") || same_text(
        name.as_str(),
        "bsrv",
    )
}

/// Puts fresh challenge cookies in the place of old ones. Two tokens side by side would be
/// refused, so the old ones go; all other cookies stay.
pub fn refresh_cookie(old_text: &str, fresh: &str) -> (r: String)
    ensures
        r@ == refreshed_cookie(old_text@, fresh@),
{
    let segments = segments_of(old_text);
    let ghost all = views(segments@);
    let mut kept: Vec<Vec<char>> = Vec::new();
    let mut i: usize = 0;
    assert(all.take(0) =~= seq![]);
    assert(views(kept@) =~= pick_segments(all.take(0), false));
    while i < segments.len()
        invariant
            i <= segments@.len(),
            all == views(segments@),
            views(kept@) == pick_segments(all.take(i as int), false),
        decreases segments@.len() - i,
    {
        let ghost front = kept@;
        assert(all.take(i + 1).drop_last() =~= all.take(i as int));
        assert(all.take(i + 1).last() == segments@[i as int]@);
        if !belongs_to_challenge(&segments[i]) {
            let copy = vstd::slice::slice_to_vec(segments[i].as_slice());
            kept.push(copy);
            assert(views(kept@) =~= views(front).push(copy@));
        }
        i += 1;
    }
    assert(all.take(all.len() as int) =~= all);
    let sep = chars_of("; ");
    let joined = join_chars(&kept, &sep);
    let mut out = string_of(&joined);
    if joined.len() > 0 {
        out.append("; ");
    }
    out.append(fresh);
    assert(out@ =~= refreshed_cookie(old_text@, fresh@));
    out
}

/// The cookies that the given `Set-Cookie` lines set.
pub fn cookies_set(lines: &Vec<String>) -> (r: Vec<String>)
    ensures
        texts(r@) == issued_cookies(texts(lines@)),
{
    let ghost all = texts(lines@);
    let mut out: Vec<String> = Vec::new();
    let mut i: usize = 0;
    assert(all.take(0) =~= seq![]);
    assert(texts(out@) =~= issued_cookies(all.take(0)));
    while i < lines.len()
        invariant
            i <= lines@.len(),
            all == texts(lines@),
            texts(out@) == issued_cookies(all.take(i as int)),
        decreases lines@.len() - i,
    {
        let ghost front = out@;
        assert(all.take(i + 1).drop_last() =~= all.take(i as int));
        assert(all.take(i + 1).last() == lines@[i as int]@);
        let chars = chars_of(lines[i].as_str());
        let cookie = cut_before(&chars, ";");
        if !cookie.as_str().is_empty() {
            out.push(cookie);
            assert(texts(out@) =~= texts(front).push(cookie@));
        }
        i += 1;
    }
    assert(all.take(all.len() as int) =~= all);
    out
}

/// The cookie text of a request that follows a redirect.
pub fn extend_cookie(old_text: Option<String>, cookies: &Vec<String>) -> (r: String)
    ensures
        r@ == extended_cookie(opt_view(old_text), texts(cookies@)),
{
    let joined = join_texts(cookies, "; ");
    match old_text {
        Some(s) => {
            let mut out = s;
            out.append("; ");
            out.append(joined.as_str());
            out
        },
        None => joined,
    }
}

// ---------------------------------------------------------------------------
// Laws
// ---------------------------------------------------------------------------

proof fn lemma_separator_unbordered()
    ensures
        unbordered("; "@),
        "; "@.len() == 2,
{
    reveal_strlit("; ");
    lemma_unbordered("; "@);
}

/// Picking from two lists of segments picks from each.
proof fn lemma_pick_append(x: Seq<Seq<char>>, y: Seq<Seq<char>>, challenge: bool)
    ensures
        pick_segments(x + y, challenge) == pick_segments(x, challenge) + pick_segments(
            y,
            challenge,
        ),
    decreases y.len(),
{
    if y.len() == 0 {
        assert(x + y =~= x);
        assert(pick_segments(x, challenge) + pick_segments(y, challenge) =~= pick_segments(
            x,
            challenge,
        ));
    } else {
        lemma_pick_append(x, y.drop_last(), challenge);
        assert((x + y).drop_last() =~= x + y.drop_last());
        assert(pick_segments(x + y, challenge) =~= pick_segments(x, challenge) + pick_segments(
            y,
            challenge,
        ));
    }
}

/// What was picked comes from the list and is of the kind asked for.
proof fn lemma_pick_members(x: Seq<Seq<char>>, challenge: bool)
    ensures
        forall|k: int|
            0 <= k < pick_segments(x, challenge).len() ==> x.contains(
                #[trigger] pick_segments(x, challenge)[k],
            ) && is_challenge_segment(pick_segments(x, challenge)[k]) == challenge,
    decreases x.len(),
{
    if x.len() > 0 {
        lemma_pick_members(x.drop_last(), challenge);
        assert forall|k: int| 0 <= k < pick_segments(x, challenge).len() implies x.contains(
            #[trigger] pick_segments(x, challenge)[k],
        ) && is_challenge_segment(pick_segments(x, challenge)[k]) == challenge by {
            let front = pick_segments(x.drop_last(), challenge);
            if k < front.len() {
                let p = front[k];
                assert(x.drop_last().contains(p));
                let m = choose|m: int| 0 <= m < x.drop_last().len() && x.drop_last()[m] == p;
                assert(x[m] == p);
            } else {
                assert(x[x.len() - 1] == x.last());
            }
        }
    }
}

/// From segments of one kind, nothing of the other kind is picked.
proof fn lemma_pick_none(x: Seq<Seq<char>>, challenge: bool)
    requires
        forall|k: int| 0 <= k < x.len() ==> is_challenge_segment(#[trigger] x[k]) != challenge,
    ensures
        pick_segments(x, challenge).len() == 0,
    decreases x.len(),
{
    if x.len() > 0 {
        assert forall|k: int| 0 <= k < x.drop_last().len() implies is_challenge_segment(
            #[trigger] x.drop_last()[k],
        ) != challenge by {
            assert(x.drop_last()[k] == x[k]);
        }
        lemma_pick_none(x.drop_last(), challenge);
        assert(is_challenge_segment(x[x.len() - 1]) != challenge);
    }
}

/// After a refresh the only challenge cookies are the fresh ones, and every other cookie is
/// still there in its old order, before the fresh ones.
pub proof fn law_refresh_replaces_challenge(old_text: Seq<char>, fresh: Seq<char>)
    ensures
        pick_segments(split(refreshed_cookie(old_text, fresh), "; "@), true) == pick_segments(
            split(fresh, "; "@),
            true,
        ),
        ({
            let kept = pick_segments(split(old_text, "; "@), false);
            join(kept, "; "@).len() > 0 ==> split(refreshed_cookie(old_text, fresh), "; "@) == kept
                + split(fresh, "; "@)
        }),
{
    let sep = "; "@;
    let old_segments = split(old_text, sep);
    let kept = pick_segments(old_segments, false);
    let kept_text = join(kept, sep);
    if kept_text.len() > 0 {
        lemma_separator_unbordered();
        law_split_parts_are_clean(old_text, sep);
        lemma_pick_members(old_segments, false);
        assert forall|k: int| 0 <= k < kept.len() implies find(#[trigger] kept[k], sep) is None by {
            let m = choose|m: int| 0 <= m < old_segments.len() && old_segments[m] == kept[k];
            assert(find(old_segments[m], sep) is None);
        }
        law_split_of_join(kept, sep);
        law_split_of_append(kept_text, sep, fresh);
        lemma_pick_append(kept, split(fresh, sep), true);
        lemma_pick_none(kept, true);
        assert(pick_segments(kept, true) + pick_segments(split(fresh, sep), true)
            =~= pick_segments(split(fresh, sep), true));
    }
}

/// A text in which no semicolon is followed by a blank is one segment.
proof fn lemma_one_segment(s: Seq<char>)
    requires
        forall|i: int| 0 <= i < s.len() - 1 ==> !(#[trigger] s[i] == ';' && s[i + 1] == ' '),
    ensures
        find(s, "; "@) is None,
        split(s, "; "@) == seq![s],
{
    reveal_strlit("; ");
    assert forall|j: int| !occurs_at(s, "; "@, j) by {
        if occurs_at(s, "; "@, j) {
            assert(s.subrange(j, j + 2)[0] == s[j]);
            assert(s.subrange(j, j + 2)[1] == s[j + 1]);
            assert("; "@[0] == ';' && "; "@[1] == ' ');
            assert(s[j] == ';');
        }
    }
    lemma_find_none(s, "; "@);
}

/// A segment `name=value` is read as that name and that value.
proof fn lemma_segment_pair(name: Seq<char>, value: Seq<char>)
    requires
        !name.contains('='),
    ensures
        find(name + "="@ + value, "="@) == Some(name.len() as int),
        (name + "="@ + value).take(name.len() as int) == name,
        (name + "="@ + value).skip(name.len() as int + 1) == value,
{
    reveal_strlit("=");
    let s = name + "="@ + value;
    let n = name.len() as int;
    assert(s.subrange(n, n + 1) =~= "="@);
    assert forall|j: int| 0 <= j < n implies !occurs_at(s, "="@, j) by {
        if occurs_at(s, "="@, j) {
            assert(s.subrange(j, j + 1)[0] == s[j]);
            assert(name[j] == '=');
        }
    }
    lemma_find_is(s, "="@, n);
    assert(s.take(n) =~= name);
    assert(s.skip(n + 1) =~= value);
}

/// A text in which the separator stands nowhere has no semicolon followed by a blank.
proof fn lemma_no_separator(s: Seq<char>, i: int)
    requires
        find(s, "; "@) is None,
        0 <= i < s.len() - 1,
    ensures
        !(s[i] == ';' && s[i + 1] == ' '),
{
    reveal_strlit("; ");
    lemma_find_least(s, "; "@);
    if s[i] == ';' && s[i + 1] == ' ' {
        assert(s.subrange(i, i + 2) =~= "; "@);
        assert(occurs_at(s, "; "@, i));
    }
}

/// A cookie whose value does not hold the separator is one segment.
proof fn lemma_cookie_is_one_segment(name: Seq<char>, value: Seq<char>)
    requires
        !name.contains(';'),
        find(value, "; "@) is None,
    ensures
        find(name + "="@ + value, "; "@) is None,
        split(name + "="@ + value, "; "@) == seq![name + "="@ + value],
{
    reveal_strlit("=");
    let s = name + "="@ + value;
    let n = name.len() as int;
    assert forall|i: int| 0 <= i < s.len() - 1 implies !(#[trigger] s[i] == ';' && s[i + 1]
        == ' ') by {
        if i < n {
            assert(s[i] == name[i]);
            assert(name.contains(name[i]));
        } else if i > n {
            lemma_no_separator(value, i - n - 1);
            assert(s[i] == value[i - n - 1] && s[i + 1] == value[i - n]);
        }
    }
    lemma_one_segment(s);
}

/// A token without the separator has none either when digits follow it.
proof fn lemma_solved_token(token: Seq<char>, solution: u64)
    requires
        find(token, "; "@) is None,
    ensures
        find(token + decimal(solution as nat), "; "@) is None,
{
    let number = decimal(solution as nat);
    lemma_decimal_is_digits(solution as nat);
    let s = token + number;
    assert forall|i: int| 0 <= i < s.len() - 1 implies !(#[trigger] s[i] == ';' && s[i + 1]
        == ' ') by {
        if i + 1 < token.len() {
            lemma_no_separator(token, i);
        } else {
            assert(s[i + 1] == number[i + 1 - token.len()]);
        }
    }
    lemma_one_segment(s);
}

/// The clock holds no separator.
proof fn lemma_clock_is_clean(ms: u64)
    ensures
        find(seconds(ms), "; "@) is None,
{
    let s = seconds(ms);
    assert forall|i: int| 0 <= i < s.len() - 1 implies !(#[trigger] s[i] == ';' && s[i + 1]
        == ' ') by {
        lemma_clock_chars(ms, i);
    }
    lemma_one_segment(s);
}

/// The cookie of a solution stores that solution: the token extended by the number that
/// solves it, and the time that solving took. A token that holds the separator of cookies
/// would be torn apart, and is left out.
pub proof fn law_solution_is_stored(
    jar: CookiesView,
    token: Seq<char>,
    solution: u64,
    elapsed_ms: u64,
)
    requires
        find(token, "; "@) is None,
    ensures
        jar.set_all(
            cookie_pairs(
                challenge_cookie(token, solution, elapsed_ms, None),
            ),
        ) == (CookiesView {
            c_token: Some(token + decimal(solution as nat)),
            c_time: Some(seconds(elapsed_ms)),
            bsrv: jar.bsrv,
        }),
{
    let sep = "; "@;
    let number = decimal(solution as nat);
    let clock = seconds(elapsed_ms);
    let a = "c_token"@ + "="@ + (token + number);
    let b = "c_time"@ + "="@ + clock;
    let c = "selectedSiteMode"@ + "="@ + "books"@;
    reveal_strlit("c_token");
    reveal_strlit("c_time");
    reveal_strlit("bsrv");
    reveal_strlit("selectedSiteMode");
    reveal_strlit("books");
    reveal_strlit("=");
    reveal_strlit("; ");
    reveal_strlit("c_token=");
    reveal_strlit("; c_time=");
    reveal_strlit("selectedSiteMode=books");
    lemma_separator_unbordered();
    // The text is three segments.
    let first = "c_token="@ + token + number + "; c_time="@ + clock;
    assert("c_token="@ =~= "c_token"@ + "="@);
    assert("; c_time="@ =~= sep + "c_time"@ + "="@);
    assert(first =~= a + sep + b);
    assert("selectedSiteMode=books"@ =~= c);
    let text = challenge_cookie(token, solution, elapsed_ms, None);
    let parts = seq![first] + account_parts(None) + seq![
        "selectedSiteMode=books"@,
    ];
    assert(parts =~= seq![first, c]);
    assert(parts.skip(1) =~= seq![c]);
    assert(join(seq![c], sep) == c);
    assert(text == first + sep + c);
    lemma_solved_token(token, solution);
    lemma_cookie_is_one_segment("c_token"@, token + number);
    lemma_clock_is_clean(elapsed_ms);
    lemma_cookie_is_one_segment("c_time"@, clock);
    lemma_one_segment(c);
    law_split_of_append(a, sep, b);
    law_split_of_append(first, sep, c);
    let segments = seq![a, b, c];
    assert(split(text, sep) =~= segments);
    // Each segment is a pair.
    lemma_segment_pair("c_token"@, token + number);
    lemma_segment_pair("c_time"@, clock);
    lemma_segment_pair("selectedSiteMode"@, "books"@);
    let pairs = seq![
        ("c_token"@, token + number),
        ("c_time"@, clock),
        ("selectedSiteMode"@, "books"@),
    ];
    assert(segments.drop_last() =~= seq![a, b]);
    assert(seq![a, b].drop_last() =~= seq![a]);
    let no_segments: Seq<Seq<char>> = seq![];
    assert(seq![a].drop_last() =~= no_segments);
    assert(segment_pairs(no_segments) =~= seq![]);
    assert(segment_pairs(seq![a]) =~= seq![pairs[0]]);
    assert(segment_pairs(seq![a, b]) =~= seq![pairs[0], pairs[1]]);
    assert(segment_pairs(segments) =~= pairs);
    // Setting them one after the other.
    assert(pairs.drop_last() =~= seq![pairs[0], pairs[1]]);
    assert(seq![pairs[0], pairs[1]].drop_last() =~= seq![pairs[0]]);
    let no_pairs: Seq<(Seq<char>, Seq<char>)> = seq![];
    assert(seq![pairs[0]].drop_last() =~= no_pairs);
    assert(jar.set_all(no_pairs) == jar);
    assert("c_time"@[2] != "c_token"@[2] || "c_time"@.len() != "c_token"@.len());
    assert("selectedSiteMode"@.len() != "c_token"@.len());
    assert("selectedSiteMode"@.len() != "c_time"@.len());
    assert("selectedSiteMode"@.len() != "bsrv"@.len());
    let j1 = jar.set_all(seq![pairs[0]]);
    assert(j1 == jar.set("c_token"@, token + number));
    let j2 = jar.set_all(seq![pairs[0], pairs[1]]);
    assert(j2 == j1.set("c_time"@, clock));
    assert(jar.set_all(pairs) == j2.set("selectedSiteMode"@, "books"@));
}

/// A clock text holds digits and a point, and no semicolon.
proof fn lemma_clock_chars(ms: u64, i: int)
    requires
        0 <= i < seconds(ms).len(),
    ensures
        seconds(ms)[i] != ';',
{
    let shown = shown_millis(ms);
    lemma_decimal_is_digits(shown / 1000);
    let whole = decimal(shown / 1000);
    if i < whole.len() {
        assert(seconds(ms)[i] == whole[i]);
    } else if i > whole.len() {
        let part = three_digits(shown % 1000);
        assert(seconds(ms)[i] == part[i - whole.len() - 1]);
    }
}

/// From segments that all belong to the challenge, all are picked.
proof fn lemma_pick_all(x: Seq<Seq<char>>)
    requires
        forall|k: int| 0 <= k < x.len() ==> is_challenge_segment(#[trigger] x[k]),
    ensures
        pick_segments(x, true) == x,
    decreases x.len(),
{
    if x.len() > 0 {
        assert forall|k: int| 0 <= k < x.drop_last().len() implies is_challenge_segment(
            #[trigger] x.drop_last()[k],
        ) by {
            assert(x.drop_last()[k] == x[k]);
        }
        lemma_pick_all(x.drop_last());
        assert(is_challenge_segment(x[x.len() - 1]));
        assert(x.drop_last().push(x.last()) =~= x);
    } else {
        assert(pick_segments(x, true) =~= x);
    }
}

/// Whether no challenge cookie holds the separator of cookies.
pub open spec fn is_clean_jar(jar: CookiesView) -> bool {
    &&& jar.c_token matches Some(v) ==> find(v, "; "@) is None
    &&& jar.c_time matches Some(v) ==> find(v, "; "@) is None
    &&& jar.bsrv matches Some(v) ==> find(v, "; "@) is None
}

/// The text of the challenge cookies is made of those cookies: each one that is set comes
/// back as a segment.
pub proof fn lemma_jar_segments(jar: CookiesView)
    requires
        is_clean_jar(jar),
    ensures
        pick_segments(split(jar.text(), "; "@), true) == jar.segments(),
{
    reveal_strlit("c_token");
    reveal_strlit("c_time");
    reveal_strlit("bsrv");
    let parts = jar.segments();
    assert forall|k: int| 0 <= k < parts.len() implies find(#[trigger] parts[k], "; "@) is None
        && is_challenge_segment(parts[k]) by {
        if jar.c_token is Some && parts[k] == "c_token"@ + "="@ + jar.c_token->0 {
            lemma_cookie_is_one_segment("c_token"@, jar.c_token->0);
            lemma_segment_pair("c_token"@, jar.c_token->0);
        } else if jar.c_time is Some && parts[k] == "c_time"@ + "="@ + jar.c_time->0 {
            lemma_cookie_is_one_segment("c_time"@, jar.c_time->0);
            lemma_segment_pair("c_time"@, jar.c_time->0);
        } else {
            assert(jar.bsrv is Some && parts[k] == "bsrv"@ + "="@ + jar.bsrv->0);
            lemma_cookie_is_one_segment("bsrv"@, jar.bsrv->0);
            lemma_segment_pair("bsrv"@, jar.bsrv->0);
        }
    }
    if parts.len() > 0 {
        lemma_separator_unbordered();
        law_split_of_join(parts, "; "@);
        lemma_pick_all(parts);
    } else {
        let nothing: Seq<char> = seq![];
        assert(jar.text() =~= nothing);
        lemma_one_segment(nothing);
        lemma_no_equals(nothing);
        assert(!is_challenge_segment(nothing));
        lemma_pick_none(seq![nothing], true);
        assert(pick_segments(seq![nothing], true) =~= parts);
    }
}

/// A segment without an equals sign is all name.
proof fn lemma_no_equals(s: Seq<char>)
    requires
        !s.contains('='),
    ensures
        before(s, "="@) == s,
{
    reveal_strlit("=");
    assert("="@ =~= seq!['=']);
    lemma_find_single(s, '=');
}

/// The cookie text of a refreshed request carries each challenge cookie exactly once, with
/// the value that is in force.
pub proof fn law_refresh_carries_the_cookies_in_force(old_text: Seq<char>, jar: CookiesView)
    requires
        is_clean_jar(jar),
    ensures
        pick_segments(split(refreshed_cookie(old_text, jar.text()), "; "@), true)
            == jar.segments(),
{
    lemma_jar_segments(jar);
    law_refresh_replaces_challenge(old_text, jar.text());
}

/// Whether a segment can stand among cookies without being torn apart.
pub open spec fn is_whole(segment: Seq<char>) -> bool {
    find(segment, "; "@) is None
}

/// The text of the challenge cookies, followed by other segments, is taken apart into both:
/// the challenge cookies are those in force, and the others follow as they are.
pub proof fn law_cookie_carries_the_challenge(jar: CookiesView, others: Seq<Seq<char>>)
    requires
        is_clean_jar(jar),
        forall|k: int|
            0 <= k < others.len() ==> is_whole(#[trigger] others[k]) && !is_challenge_segment(
                others[k],
            ),
    ensures
        split(join(seq![jar.text()] + others, "; "@), "; "@) == split(jar.text(), "; "@) + others,
        pick_segments(split(join(seq![jar.text()] + others, "; "@), "; "@), true)
            == jar.segments(),
{
    let sep = "; "@;
    let parts = seq![jar.text()] + others;
    lemma_jar_segments(jar);
    assert(parts.skip(1) =~= others);
    if others.len() == 0 {
        assert(parts =~= seq![jar.text()]);
        assert(split(jar.text(), sep) + others =~= split(jar.text(), sep));
    } else {
        lemma_separator_unbordered();
        assert forall|k: int| 0 <= k < others.len() implies find(#[trigger] others[k], sep) is None by {
            assert(is_whole(others[k]));
        }
        law_split_of_join(others, sep);
        law_split_of_append(jar.text(), sep, join(others, sep));
    }
    lemma_pick_append(split(jar.text(), sep), others, true);
    lemma_pick_none(others, true);
    assert(jar.segments() + pick_segments(others, true) =~= jar.segments());
}

/// The kind of site is a cookie of its own.
pub proof fn lemma_site_mode()
    ensures
        is_whole("selectedSiteMode=books"@),
        !is_challenge_segment("selectedSiteMode=books"@),
{
    reveal_strlit("selectedSiteMode");
    reveal_strlit("books");
    reveal_strlit("=");
    reveal_strlit("selectedSiteMode=books");
    reveal_strlit("c_token");
    reveal_strlit("c_time");
    reveal_strlit("bsrv");
    assert("selectedSiteMode=books"@ =~= "selectedSiteMode"@ + "="@ + "books"@);
    lemma_one_segment("selectedSiteMode=books"@);
    lemma_segment_pair("selectedSiteMode"@, "books"@);
}

/// The cookies that name an account are cookies of their own, as long as the id and the key
/// do not hold the separator.
pub proof fn lemma_account_parts(account: Option<(Seq<char>, Seq<char>)>)
    requires
        account matches Some((uid, ukey)) ==> is_whole(uid) && is_whole(ukey),
    ensures
        forall|k: int|
            0 <= k < account_parts(account).len() ==> is_whole(#[trigger] account_parts(account)[k])
                && !is_challenge_segment(account_parts(account)[k]),
{
    if let Some((uid, ukey)) = account {
        reveal_strlit("remix_userid");
        reveal_strlit("remix_userkey");
        reveal_strlit("=");
        reveal_strlit("remix_userid=");
        reveal_strlit("remix_userkey=");
        reveal_strlit("c_token");
        reveal_strlit("c_time");
        reveal_strlit("bsrv");
        assert("remix_userid="@ + uid =~= "remix_userid"@ + "="@ + uid);
        assert("remix_userkey="@ + ukey =~= "remix_userkey"@ + "="@ + ukey);
        lemma_cookie_is_one_segment("remix_userid"@, uid);
        lemma_segment_pair("remix_userid"@, uid);
        lemma_cookie_is_one_segment("remix_userkey"@, ukey);
        lemma_segment_pair("remix_userkey"@, ukey);
    }
}

/// Solving a challenge leaves clean cookies clean, as long as the token is.
pub proof fn lemma_solved_jar_is_clean(token: Seq<char>, solution: u64, elapsed_ms: u64)
    requires
        find(token, "; "@) is None,
    ensures
        find(token + decimal(solution as nat), "; "@) is None,
        find(seconds(elapsed_ms), "; "@) is None,
{
    lemma_solved_token(token, solution);
    lemma_clock_is_clean(elapsed_ms);
}

/// The challenge cookies are those with one of three names; every other cookie, whatever its
/// name and value, is none.
pub proof fn law_challenge_cookies_have_three_names(name: Seq<char>, value: Seq<char>)
    requires
        !name.contains('='),
    ensures
        is_challenge_segment(name + "="@ + value) <==> name == "c_token"@ || name == "c_time"@
            || name == "bsrv"@,
        is_challenge_segment(name) <==> name == "c_token"@ || name == "c_time"@ || name == "bsrv"@,
{
    lemma_segment_pair(name, value);
    lemma_no_equals(name);
}

/// Segments are picked one by one: those of the kind asked for stay, in their order, and no
/// other.
pub proof fn law_segments_are_filtered(segments: Seq<Seq<char>>, challenge: bool)
    ensures
        pick_segments(segments, challenge) == segments.filter(
            |s: Seq<char>| is_challenge_segment(s) == challenge,
        ),
    decreases segments.len(),
{
    reveal(Seq::filter);
    if segments.len() > 0 {
        law_segments_are_filtered(segments.drop_last(), challenge);
    } else {
        assert(pick_segments(segments, challenge) =~= segments);
    }
}

/// A refreshed cookie text holds the cookies that were there and do not belong to the
/// challenge, in their order, and then the fresh ones.
pub proof fn law_refresh_keeps_other_cookies(parts: Seq<Seq<char>>, fresh: Seq<char>)
    requires
        parts.len() > 0,
        forall|k: int| 0 <= k < parts.len() ==> is_whole(#[trigger] parts[k]),
    ensures
        ({
            let kept = parts.filter(|s: Seq<char>| !is_challenge_segment(s));
            let text = refreshed_cookie(join(parts, "; "@), fresh);
            &&& join(kept, "; "@).len() > 0 ==> text == join(kept.push(fresh), "; "@)
            &&& join(kept, "; "@).len() == 0 ==> text == fresh
        }),
{
    let kept = parts.filter(|s: Seq<char>| !is_challenge_segment(s));
    lemma_separator_unbordered();
    assert forall|k: int| 0 <= k < parts.len() implies find(#[trigger] parts[k], "; "@) is None by {
        assert(is_whole(parts[k]));
    }
    law_split_of_join(parts, "; "@);
    law_segments_are_filtered(parts, false);
    assert(parts.filter(|s: Seq<char>| is_challenge_segment(s) == false) =~= kept) by {
        lemma_filters_agree(parts);
    }
    if join(kept, "; "@).len() > 0 {
        law_join_of_append(kept, seq![fresh], "; "@);
        assert(kept + seq![fresh] =~= kept.push(fresh));
        assert(join(seq![fresh], "; "@) == fresh);
    }
}

proof fn lemma_filters_agree(parts: Seq<Seq<char>>)
    ensures
        parts.filter(|s: Seq<char>| is_challenge_segment(s) == false) == parts.filter(
            |s: Seq<char>| !is_challenge_segment(s),
        ),
    decreases parts.len(),
{
    reveal(Seq::filter);
    if parts.len() > 0 {
        lemma_filters_agree(parts.drop_last());
    }
}

/// Cookies as a request carries them.
pub open spec fn pair_segments(pairs: Seq<(Seq<char>, Seq<char>)>) -> Seq<Seq<char>> {
    pairs.map_values(|p: (Seq<char>, Seq<char>)| p.0 + "="@ + p.1)
}

/// Whether a name and a value make a cookie that is read as that name and that value.
pub open spec fn is_cookie(pair: (Seq<char>, Seq<char>)) -> bool {
    !pair.0.contains('=') && !pair.0.contains(';') && is_whole(pair.1)
}

proof fn lemma_segments_read_back(pairs: Seq<(Seq<char>, Seq<char>)>)
    requires
        forall|k: int| 0 <= k < pairs.len() ==> is_cookie(#[trigger] pairs[k]),
    ensures
        segment_pairs(pair_segments(pairs)) == pairs,
    decreases pairs.len(),
{
    let segments = pair_segments(pairs);
    if pairs.len() > 0 {
        let front = pairs.drop_last();
        assert forall|k: int| 0 <= k < front.len() implies is_cookie(#[trigger] front[k]) by {
            assert(front[k] == pairs[k]);
        }
        lemma_segments_read_back(front);
        assert(segments.drop_last() =~= pair_segments(front));
        let last = pairs[pairs.len() - 1];
        assert(is_cookie(last));
        lemma_segment_pair(last.0, last.1);
        assert(front.push(last) =~= pairs);
    } else {
        assert(segment_pairs(segments) =~= pairs);
    }
}

/// Names and values that are written into a cookie text are read back from it, all of them
/// and in their order.
pub proof fn law_cookie_pairs_read_back(pairs: Seq<(Seq<char>, Seq<char>)>)
    requires
        pairs.len() > 0,
        forall|k: int| 0 <= k < pairs.len() ==> is_cookie(#[trigger] pairs[k]),
    ensures
        cookie_pairs(join(pair_segments(pairs), "; "@)) == pairs,
{
    let segments = pair_segments(pairs);
    assert forall|k: int| 0 <= k < segments.len() implies find(#[trigger] segments[k], "; "@)
        is None by {
        assert(is_cookie(pairs[k]));
        lemma_cookie_is_one_segment(pairs[k].0, pairs[k].1);
    }
    lemma_separator_unbordered();
    law_split_of_join(segments, "; "@);
    lemma_segments_read_back(pairs);
}

/// The cookies of responses are what stands before the first semicolon of each line, in the
/// order of the lines; lines on which nothing stands there set none.
pub proof fn law_issued_cookies(lines: Seq<Seq<char>>)
    ensures
        issued_cookies(lines) == lines.map_values(|l: Seq<char>| before(l, ";"@)).filter(
            |c: Seq<char>| c.len() > 0,
        ),
    decreases lines.len(),
{
    reveal(Seq::filter);
    let cut = lines.map_values(|l: Seq<char>| before(l, ";"@));
    if lines.len() > 0 {
        law_issued_cookies(lines.drop_last());
        assert(cut.drop_last() =~= lines.drop_last().map_values(|l: Seq<char>| before(l, ";"@)));
        assert(cut.last() == before(lines.last(), ";"@));
    } else {
        assert(issued_cookies(lines) =~= cut);
    }
}

/// A line sets the cookie before its attributes, with its whole value.
pub proof fn law_line_sets_its_cookie(cookie: Seq<char>, attributes: Seq<char>)
    requires
        cookie.len() > 0,
        !cookie.contains(';'),
    ensures
        issued_cookies(seq![cookie + ";"@ + attributes]) == seq![cookie],
        issued_cookies(seq![cookie]) == seq![cookie],
{
    reveal_strlit(";");
    lemma_find_first_char(cookie, ";"@, attributes);
    let line = cookie + ";"@ + attributes;
    assert(line.take(cookie.len() as int) =~= cookie);
    let none: Seq<Seq<char>> = seq![];
    assert(seq![line].drop_last() =~= none);
    assert(seq![cookie].drop_last() =~= none);
    assert(issued_cookies(none) =~= none);
    assert(issued_cookies(seq![line]) =~= seq![cookie]);
    assert(issued_cookies(seq![cookie]) =~= seq![cookie]);
}

/// A request that follows a redirect carries the cookies that it carried before and then
/// those that came with the redirect.
pub proof fn law_redirect_adds_its_cookies(old_text: Seq<char>, cookies: Seq<Seq<char>>)
    requires
        cookies.len() > 0,
        forall|k: int| 0 <= k < cookies.len() ==> is_whole(#[trigger] cookies[k]),
    ensures
        split(extended_cookie(Some(old_text), cookies), "; "@) == split(old_text, "; "@) + cookies,
        split(extended_cookie(None, cookies), "; "@) == cookies,
{
    lemma_separator_unbordered();
    assert forall|k: int| 0 <= k < cookies.len() implies find(#[trigger] cookies[k], "; "@)
        is None by {
        assert(is_whole(cookies[k]));
    }
    law_split_of_join(cookies, "; "@);
    law_split_of_append(old_text, "; "@, join(cookies, "; "@));
}

/// The pairs of the challenge cookies that are set.
pub open spec fn jar_pairs(jar: CookiesView) -> Seq<(Seq<char>, Seq<char>)> {
    set_pair("c_token"@, jar.c_token) + set_pair("c_time"@, jar.c_time) + set_pair(
        "bsrv"@,
        jar.bsrv,
    )
}

/// A pair, where its value is set.
pub open spec fn set_pair(name: Seq<char>, value: Option<Seq<char>>) -> Seq<
    (Seq<char>, Seq<char>),
> {
    match value {
        Some(v) => seq![(name, v)],
        None => seq![],
    }
}

/// The text of the challenge cookies holds each that is set under its name: taken over by
/// other cookies it sets those, and leaves the ones that are not set as they were.
#[verifier::rlimit(40)]
pub proof fn law_jar_text_reads_back(jar: CookiesView, other: CookiesView)
    requires
        is_clean_jar(jar),
    ensures
        other.set_all(cookie_pairs(jar.text())) == (CookiesView {
            c_token: if jar.c_token is Some {
                jar.c_token
            } else {
                other.c_token
            },
            c_time: if jar.c_time is Some {
                jar.c_time
            } else {
                other.c_time
            },
            bsrv: if jar.bsrv is Some {
                jar.bsrv
            } else {
                other.bsrv
            },
        }),
{
    reveal_strlit("c_token");
    reveal_strlit("c_time");
    reveal_strlit("bsrv");
    let pairs = jar_pairs(jar);
    assert(jar.segments() =~= pair_segments(pairs));
    assert forall|k: int| 0 <= k < pairs.len() implies is_cookie(#[trigger] pairs[k]) by {}
    if pairs.len() > 0 {
        law_cookie_pairs_read_back(pairs);
    } else {
        let nothing: Seq<char> = seq![];
        assert(jar.text() =~= nothing);
        lemma_one_segment(nothing);
        reveal_strlit("=");
        assert("="@ =~= seq!['=']);
        lemma_find_single(nothing, '=');
        assert(seq![nothing].drop_last() =~= Seq::<Seq<char>>::empty());
        assert(segment_pairs(Seq::<Seq<char>>::empty()) =~= pairs);
        assert(cookie_pairs(nothing) =~= pairs);
    }
    let a = set_pair("c_token"@, jar.c_token);
    let b = set_pair("c_time"@, jar.c_time);
    let c = set_pair("bsrv"@, jar.bsrv);
    lemma_set_pair(other, seq![], "c_token"@, jar.c_token);
    lemma_set_pair(other, a, "c_time"@, jar.c_time);
    lemma_set_pair(other, a + b, "bsrv"@, jar.bsrv);
    assert(Seq::<(Seq<char>, Seq<char>)>::empty() + a =~= a);
    assert("c_token"@.len() != "c_time"@.len());
    assert("c_token"@.len() != "bsrv"@.len());
    assert("c_time"@.len() != "bsrv"@.len());
}

proof fn lemma_set_pair(
    jar: CookiesView,
    pairs: Seq<(Seq<char>, Seq<char>)>,
    name: Seq<char>,
    value: Option<Seq<char>>,
)
    ensures
        jar.set_all(pairs + set_pair(name, value)) == (match value {
            Some(v) => jar.set_all(pairs).set(name, v),
            None => jar.set_all(pairs),
        }),
        jar.set_all(seq![]) == jar,
{
    match value {
        Some(v) => {
            assert((pairs + seq![(name, v)]).drop_last() =~= pairs);
        },
        None => {
            assert(pairs + set_pair(name, value) =~= pairs);
        },
    }
}

/// The cookie with which a solution is sent is the token with the number behind it, the time
/// it took, the account where one is given, and the kind of site, each as a cookie of its
/// own.
#[verifier::rlimit(40)]
pub proof fn law_solution_cookie(
    token: Seq<char>,
    solution: u64,
    elapsed_ms: u64,
    uid: Seq<char>,
    ukey: Seq<char>,
)
    requires
        is_whole(token),
        is_whole(uid),
        is_whole(ukey),
    ensures
        cookie_pairs(challenge_cookie(token, solution, elapsed_ms, None)) == seq![
            ("c_token"@, token + decimal(solution as nat)),
            ("c_time"@, seconds(elapsed_ms)),
            ("selectedSiteMode"@, "books"@),
        ],
        cookie_pairs(challenge_cookie(token, solution, elapsed_ms, Some((uid, ukey)))) == seq![
            ("c_token"@, token + decimal(solution as nat)),
            ("c_time"@, seconds(elapsed_ms)),
            ("remix_userid"@, uid),
            ("remix_userkey"@, ukey),
            ("selectedSiteMode"@, "books"@),
        ],
{
    let sep = "; "@;
    let number = decimal(solution as nat);
    let clock = seconds(elapsed_ms);
    reveal_strlit("c_token");
    reveal_strlit("c_time");
    reveal_strlit("remix_userid");
    reveal_strlit("remix_userkey");
    reveal_strlit("selectedSiteMode");
    reveal_strlit("books");
    reveal_strlit("=");
    reveal_strlit("; ");
    reveal_strlit("c_token=");
    reveal_strlit("; c_time=");
    reveal_strlit("remix_userid=");
    reveal_strlit("remix_userkey=");
    reveal_strlit("selectedSiteMode=books");
    lemma_solved_token(token, solution);
    lemma_clock_is_clean(elapsed_ms);
    lemma_one_segment("books"@);
    let a = "c_token"@ + "="@ + (token + number);
    let b = "c_time"@ + "="@ + clock;
    let u = "remix_userid"@ + "="@ + uid;
    let v = "remix_userkey"@ + "="@ + ukey;
    let m = "selectedSiteMode"@ + "="@ + "books"@;
    let first = "c_token="@ + token + number + "; c_time="@ + clock;
    assert("c_token="@ =~= "c_token"@ + "="@);
    assert("; c_time="@ =~= sep + "c_time"@ + "="@);
    assert(first =~= a + sep + b);
    assert("selectedSiteMode=books"@ =~= m);
    assert("remix_userid="@ + uid =~= u);
    assert("remix_userkey="@ + ukey =~= v);
    assert(join(seq![a], sep) == a);
    assert(join(seq![b], sep) == b);
    law_join_of_append(seq![a], seq![b], sep);
    assert(join(seq![a, b], sep) == first) by {
        assert(seq![a] + seq![b] =~= seq![a, b]);
    }
    // Without an account.
    let plain = seq![
        ("c_token"@, token + number),
        ("c_time"@, clock),
        ("selectedSiteMode"@, "books"@),
    ];
    assert(pair_segments(plain) =~= seq![a, b] + seq![m]);
    law_join_of_append(seq![a, b], seq![m], sep);
    law_join_of_append(seq![first], seq![m], sep);
    assert(seq![first] + account_parts(None) + seq!["selectedSiteMode=books"@] =~= seq![first]
        + seq![m]);
    assert forall|k: int| 0 <= k < plain.len() implies is_cookie(#[trigger] plain[k]) by {}
    law_cookie_pairs_read_back(plain);
    // With an account.
    let full = seq![
        ("c_token"@, token + number),
        ("c_time"@, clock),
        ("remix_userid"@, uid),
        ("remix_userkey"@, ukey),
        ("selectedSiteMode"@, "books"@),
    ];
    let rest = seq![u, v, m];
    assert(pair_segments(full) =~= seq![a, b] + rest);
    law_join_of_append(seq![a, b], rest, sep);
    law_join_of_append(seq![first], rest, sep);
    assert(seq![first] + account_parts(Some((uid, ukey))) + seq!["selectedSiteMode=books"@]
        =~= seq![first] + rest);
    assert forall|k: int| 0 <= k < full.len() implies is_cookie(#[trigger] full[k]) by {}
    law_cookie_pairs_read_back(full);
}

} // verus!
