//! HTTP headers: `http::HeaderMap` and the rules for names and values.
//!
//! A header map is modelled by a table from lower-case names to the values that
//! stand under them, in the order in which they were added.

use vstd::prelude::*;
use vstd::utf8::encode_utf8;

use crate::text::texts;

verus! {

/// The header map of the `http` crate.
#[verifier::external_type_specification]
#[verifier::external_body]
#[verifier::reject_recursive_types(T)]
pub struct ExHeaderMap<T>(http::HeaderMap<T>);

/// The header value of the `http` crate.
#[verifier::external_type_specification]
#[verifier::external_body]
pub struct ExHeaderValue(http::HeaderValue);

/// Names in lower case, each with its values in order.
pub type HeaderTable = Map<Seq<char>, Seq<Seq<u8>>>;

/// What a header map holds.
pub uninterp spec fn header_entries(m: http::HeaderMap<http::HeaderValue>) -> HeaderTable;

// ---------------------------------------------------------------------------
// Model
// ---------------------------------------------------------------------------

/// The characters that a header name may hold (`tchar` of RFC 7230).
pub open spec fn is_name_char(c: char) -> bool {
    ||| 'a' <= c <= 'z'
    ||| 'A' <= c <= 'Z'
    ||| '0' <= c <= '9'
    ||| c == '!'
    ||| c == '#'
    ||| c == '$'
    ||| c == '%'
    ||| c == '&'
    ||| c == '\''
    ||| c == '*'
    ||| c == '+'
    ||| c == '-'
    ||| c == '.'
    ||| c == '^'
    ||| c == '_'
    ||| c == '`'
    ||| c == '|'
    ||| c == '~'
}

/// A text that names a header.
pub open spec fn is_header_name(s: Seq<char>) -> bool {
    &&& 1 <= s.len() <= 65535
    &&& forall|i: int| 0 <= i < s.len() ==> is_name_char(#[trigger] s[i])
}

/// An ASCII capital in lower case, any other character as it is.
pub open spec fn lower_char(c: char) -> char {
    if 'A' <= c <= 'Z' {
        (c as u32 + 32) as char
    } else {
        c
    }
}

/// A header name in the form under which it is kept.
pub open spec fn lower_name(s: Seq<char>) -> Seq<char> {
    s.map_values(|c: char| lower_char(c))
}

/// Bytes that may stand in a header value: no control characters but the tab.
pub open spec fn is_header_value(v: Seq<u8>) -> bool {
    forall|i: int| 0 <= i < v.len() ==> (#[trigger] v[i] >= 32 && v[i] != 127) || v[i] == 9
}

/// Bytes that can be shown as text: visible ASCII, blanks and tabs.
pub open spec fn is_visible(v: Seq<u8>) -> bool {
    forall|i: int| 0 <= i < v.len() ==> 32 <= #[trigger] v[i] < 127 || v[i] == 9
}

/// ASCII bytes as text.
pub open spec fn ascii_text(v: Seq<u8>) -> Seq<char> {
    v.map_values(|b: u8| b as char)
}

/// The first value under a name.
pub open spec fn first_value(t: HeaderTable, name: Seq<char>) -> Option<Seq<u8>> {
    if t.contains_key(name) {
        Some(t[name][0])
    } else {
        None
    }
}

/// All values under a name.
pub open spec fn all_values(t: HeaderTable, name: Seq<char>) -> Seq<Seq<u8>> {
    if t.contains_key(name) {
        t[name]
    } else {
        seq![]
    }
}

/// The first value under a name, where there is one and it can be shown as text.
pub open spec fn first_text(t: HeaderTable, name: Seq<char>) -> Option<Seq<char>> {
    match first_value(t, name) {
        Some(v) => shown(v),
        None => None,
    }
}

/// Those of the values that can be shown as text, in order.
pub open spec fn visible_texts(values: Seq<Seq<u8>>) -> Seq<Seq<char>>
    decreases values.len(),
{
    if values.len() == 0 {
        seq![]
    } else {
        let front = visible_texts(values.drop_last());
        if is_visible(values.last()) {
            front.push(ascii_text(values.last()))
        } else {
            front
        }
    }
}

/// The table with `value` as the only one under `name`, or unchanged where one of the
/// two is not allowed in a header.
pub open spec fn put(t: HeaderTable, name: Seq<char>, value: Seq<char>) -> HeaderTable {
    if is_header_name(name) && is_header_value(encode_utf8(value)) {
        t.insert(lower_name(name), seq![encode_utf8(value)])
    } else {
        t
    }
}

/// The table after several values were put into it, one after the other.
pub open spec fn put_all(t: HeaderTable, list: Seq<(Seq<char>, Seq<char>)>) -> HeaderTable
    decreases list.len(),
{
    if list.len() == 0 {
        t
    } else {
        put(put_all(t, list.drop_last()), list.last().0, list.last().1)
    }
}

/// Whether there are values under exactly `n` names.
pub open spec fn has_names(t: HeaderTable, n: nat) -> bool {
    t.dom().finite() && t.dom().len() == n
}

/// Header maps grow up to a limit; below this many names another one always fits.
pub open spec fn has_room(t: HeaderTable) -> bool {
    t.dom().finite() && t.dom().len() < 6554
}

/// A value as text, where it can be shown as such.
pub open spec fn shown(v: Seq<u8>) -> Option<Seq<char>> {
    if is_visible(v) {
        Some(ascii_text(v))
    } else {
        None
    }
}

/// The models of several optional texts.
pub open spec fn shown_values(v: Seq<Option<String>>) -> Seq<Option<Seq<char>>> {
    v.map_values(
        |x: Option<String>|
            match x {
                Some(s) => Some(s@),
                None => None,
            },
    )
}

// ---------------------------------------------------------------------------
// The `http` crate
// ---------------------------------------------------------------------------

/// `HeaderMap::new`: a map without entries.
#[verifier::external_body]
pub(crate) fn new_headers() -> (r: http::HeaderMap<http::HeaderValue>)
    ensures
        header_entries(r) == HeaderTable::empty(),
{
    http::HeaderMap::new()
}

/// `HeaderMap::clone`: a map with the same entries.
#[verifier::external_body]
pub(crate) fn copy_headers(m: &http::HeaderMap<http::HeaderValue>) -> (r: http::HeaderMap<
    http::HeaderValue,
>)
    ensures
        header_entries(r) == header_entries(*m),
{
    m.clone()
}

/// `HeaderName::from_bytes`: accepts one to 65535 token characters and gives the name in
/// lower case; refuses every other text.
#[verifier::external_body]
pub(crate) fn header_name(name: &str) -> (r: Option<String>)
    ensures
        r is Some <==> is_header_name(name@),
        r matches Some(n) ==> n@ == lower_name(name@),
{
    http::header::HeaderName::from_bytes(name.as_bytes()).ok().map(|n| n.as_str().to_string())
}

/// `HeaderValue::from_str`: accepts a text whose UTF-8 bytes are no control characters but
/// the tab, and keeps those bytes; refuses every other text.
#[verifier::external_body]
pub(crate) fn header_value(value: &str) -> (r: Option<Vec<u8>>)
    ensures
        r is Some <==> is_header_value(encode_utf8(value@)),
        r matches Some(v) ==> v@ == encode_utf8(value@),
{
    http::HeaderValue::from_str(value).ok().map(|v| v.as_bytes().to_vec())
}

/// `HeaderMap::insert`: the value becomes the only one under the name.
///
/// The crate panics where the table cannot grow, which it can as long as fewer than a
/// fifth of its 32768 slots are taken.
#[verifier::external_body]
pub(crate) fn insert_header(
    m: &mut http::HeaderMap<http::HeaderValue>,
    name: &str,
    value: &Vec<u8>,
)
    requires
        is_header_name(name@),
        is_header_value(value@),
        has_room(header_entries(*old(m))),
    ensures
        header_entries(*final(m)) == header_entries(*old(m)).insert(
            lower_name(name@),
            seq![value@],
        ),
{
    let key = http::header::HeaderName::from_bytes(name.as_bytes()).unwrap();
    let val = http::HeaderValue::from_bytes(value).unwrap();
    m.insert(key, val);
}

/// `HeaderMap::get` and `HeaderValue::to_str`: the first of the values under the name,
/// which is looked up in lower case, as text where all its bytes are visible ASCII, blanks
/// or tabs; else an error, whose message is always the same. Every name in the map has at
/// least one value.
#[verifier::external_body]
pub(crate) fn get_header(m: &http::HeaderMap<http::HeaderValue>, name: &str) -> (r: Option<
    Result<String, String>,
>)
    requires
        is_header_name(name@),
    ensures
        match r {
            Some(text) => first_value(header_entries(*m), lower_name(name@)) matches Some(v) && (
            match text {
                Ok(s) => is_visible(v) && s@ == ascii_text(v),
                Err(e) => !is_visible(v) && e@ == "failed to convert header to a str"@,
            }),
            None => first_value(header_entries(*m), lower_name(name@)) is None,
        },
{
    m.get(name).map(|v| v.to_str().map(|s| s.to_string()).map_err(|e| e.to_string()))
}

/// `HeaderMap::get_all` and `HeaderValue::to_str`: all values under the name, in the order
/// in which they were added, each as text where it can be shown as such.
#[verifier::external_body]
pub(crate) fn get_all_headers(m: &http::HeaderMap<http::HeaderValue>, name: &str) -> (r: Vec<
    Option<String>,
>)
    requires
        is_header_name(name@),
    ensures
        shown_values(r@) == all_values(header_entries(*m), lower_name(name@)).map_values(
            |v: Seq<u8>| shown(v),
        ),
{
    m.get_all(name).iter().map(|v| v.to_str().ok().map(|s| s.to_string())).collect()
}

/// `HeaderMap::contains_key`: whether there is a value under the name.
#[verifier::external_body]
pub(crate) fn has_header(m: &http::HeaderMap<http::HeaderValue>, name: &str) -> (r: bool)
    requires
        is_header_name(name@),
    ensures
        r == header_entries(*m).contains_key(lower_name(name@)),
{
    m.contains_key(name)
}

/// `HeaderMap::keys_len`: the number of names under which there is a value.
#[verifier::external_body]
pub(crate) fn count_names(m: &http::HeaderMap<http::HeaderValue>) -> (r: usize)
    ensures
        has_names(header_entries(*m), r as nat),
{
    m.keys_len()
}

// ---------------------------------------------------------------------------
// Reading
// ---------------------------------------------------------------------------

/// The first value under a name, where there is one and it can be shown as text.
pub fn header_text(m: &http::HeaderMap<http::HeaderValue>, name: &str) -> (r: Option<String>)
    requires
        is_header_name(name@),
    ensures
        match r {
            Some(s) => first_text(header_entries(*m), lower_name(name@)) == Some(s@),
            None => first_text(header_entries(*m), lower_name(name@)) is None,
        },
{
    match get_header(m, name) {
        Some(Ok(s)) => Some(s),
        _ => None,
    }
}

/// Those of the values under a name that can be shown as text, in order.
pub fn header_texts(m: &http::HeaderMap<http::HeaderValue>, name: &str) -> (r: Vec<String>)
    requires
        is_header_name(name@),
    ensures
        texts(r@) == visible_texts(all_values(header_entries(*m), lower_name(name@))),
{
    let found = get_all_headers(m, name);
    let ghost values = all_values(header_entries(*m), lower_name(name@));
    let mut out: Vec<String> = Vec::new();
    assert(shown_values(found@).len() == values.len());
    assert(values.take(0) =~= seq![]);
    assert(texts(out@) =~= visible_texts(values.take(0)));
    let mut i: usize = 0;
    while i < found.len()
        invariant
            i <= found@.len(),
            found@.len() == values.len(),
            shown_values(found@) == values.map_values(|v: Seq<u8>| shown(v)),
            texts(out@) == visible_texts(values.take(i as int)),
        decreases found@.len() - i,
    {
        let ghost before_push = out@;
        assert(shown_values(found@)[i as int] == shown(values[i as int]));
        assert(values.take(i + 1).drop_last() =~= values.take(i as int));
        assert(values.take(i + 1).last() == values[i as int]);
        if let Some(s) = &found[i] {
            out.push(s.clone());
            assert(texts(out@) =~= texts(before_push).push(s@));
        }
        i += 1;
    }
    assert(values.take(values.len() as int) =~= values);
    out
}

// ---------------------------------------------------------------------------
// Laws
// ---------------------------------------------------------------------------

/// Texts of visible ASCII characters, blanks and tabs.
pub open spec fn is_plain_text(s: Seq<char>) -> bool {
    forall|i: int| 0 <= i < s.len() ==> ' ' <= #[trigger] s[i] <= '~' || s[i] == '\t'
}

/// A plain text is allowed in a header and keeps its characters there.
pub proof fn lemma_plain_text(s: Seq<char>)
    requires
        is_plain_text(s),
    ensures
        is_header_value(encode_utf8(s)),
        is_visible(encode_utf8(s)),
        ascii_text(encode_utf8(s)) == s,
{
    assert(vstd::utf8::is_ascii_chars(s));
    vstd::utf8::is_ascii_chars_encode_utf8(s);
    let v = encode_utf8(s);
    assert forall|i: int| 0 <= i < v.len() implies 32 <= #[trigger] v[i] < 127 || v[i] == 9 by {
        assert(s[i] as u8 == v[i]);
    }
    assert forall|i: int| 0 <= i < v.len() implies v[i] as char == s[i] by {
        assert(s[i] as u8 == v[i]);
    }
    assert(ascii_text(v) =~= s);
}

/// A plain text that is put under a name is read back from there.
pub proof fn law_header_reads_back(t: HeaderTable, name: Seq<char>, value: Seq<char>)
    requires
        is_header_name(name),
        is_plain_text(value),
    ensures
        first_text(put(t, name, value), lower_name(name)) == Some(value),
        all_values(put(t, name, value), lower_name(name)).len() == 1,
{
    lemma_plain_text(value);
}

/// Putting a value under one name leaves all other names as they are.
pub proof fn law_put_leaves_others(
    t: HeaderTable,
    name: Seq<char>,
    value: Seq<char>,
    other: Seq<char>,
)
    requires
        other != lower_name(name),
    ensures
        all_values(put(t, name, value), other) == all_values(t, other),
        first_text(put(t, name, value), other) == first_text(t, other),
{
}

/// Putting values adds at most one name for each.
pub proof fn lemma_put_all_len(t: HeaderTable, list: Seq<(Seq<char>, Seq<char>)>)
    requires
        t.dom().finite(),
    ensures
        put_all(t, list).dom().finite(),
        put_all(t, list).dom().len() <= t.dom().len() + list.len(),
    decreases list.len(),
{
    if list.len() > 0 {
        lemma_put_all_len(t, list.drop_last());
        let front = put_all(t, list.drop_last());
        let name = lower_name(list.last().0);
        let value = seq![encode_utf8(list.last().1)];
        assert(front.insert(name, value).dom() =~= front.dom().insert(name));
    }
}

/// The texts of some values are those of the visible ones, each with all its bytes, in their
/// order.
pub proof fn law_visible_texts(values: Seq<Seq<u8>>)
    ensures
        visible_texts(values) == values.filter(|v: Seq<u8>| is_visible(v)).map_values(
            |v: Seq<u8>| Seq::new(v.len(), |i: int| v[i] as char),
        ),
    decreases values.len(),
{
    reveal(Seq::filter);
    let kept = values.filter(|v: Seq<u8>| is_visible(v));
    let text = |v: Seq<u8>| Seq::new(v.len(), |i: int| v[i] as char);
    if values.len() > 0 {
        law_visible_texts(values.drop_last());
        let front = values.drop_last().filter(|v: Seq<u8>| is_visible(v));
        if is_visible(values.last()) {
            assert(kept =~= front.push(values.last()));
            assert(ascii_text(values.last()) =~= text(values.last()));
            assert(kept.map_values(text) =~= front.map_values(text).push(text(values.last())));
        } else {
            assert(kept =~= front);
        }
    } else {
        assert(visible_texts(values) =~= kept.map_values(text));
    }
}

/// Values are put one after the other, so that the last one under a name counts.
pub proof fn law_last_value_counts(
    t: HeaderTable,
    list: Seq<(Seq<char>, Seq<char>)>,
    name: Seq<char>,
    value: Seq<char>,
)
    requires
        is_header_name(name),
        is_plain_text(value),
    ensures
        first_text(put_all(t, list.push((name, value))), lower_name(name)) == Some(value),
        forall|other: Seq<char>|
            other != lower_name(name) ==> #[trigger] all_values(
                put_all(t, list.push((name, value))),
                other,
            ) == all_values(put_all(t, list), other),
{
    assert(list.push((name, value)).drop_last() =~= list);
    law_header_reads_back(put_all(t, list), name, value);
}

/// A value that is allowed is kept under its name with all its bytes, and is the only one
/// there; a name or a value that is not allowed changes nothing.
pub proof fn law_put_keeps_all_bytes(t: HeaderTable, name: Seq<char>, value: Seq<char>)
    ensures
        is_header_name(name) && is_header_value(encode_utf8(value)) ==> all_values(
            put(t, name, value),
            lower_name(name),
        ) == seq![encode_utf8(value)],
        !is_header_name(name) || !is_header_value(encode_utf8(value)) ==> put(t, name, value) == t,
{
}

} // verus!
