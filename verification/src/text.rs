//! Texts as sequences of characters: searching, splitting, joining, trimming.
//!
//! A text is modelled by its `Seq<char>`. The executable functions work on
//! slices of characters, so that positions count characters and never fall
//! inside one.

use vstd::prelude::*;
use vstd::slice::{slice_subrange, slice_to_vec};

verus! {

/// `String::push` of the standard library: appends one character.
pub assume_specification[ String::push ](s: &mut String, ch: char)
    ensures
        final(s)@ == old(s)@.push(ch),
;

// ---------------------------------------------------------------------------
// Model
// ---------------------------------------------------------------------------

/// Whether `pat` stands in `s` at position `i`.
pub open spec fn occurs_at(s: Seq<char>, pat: Seq<char>, i: int) -> bool {
    0 <= i && i + pat.len() <= s.len() && s.subrange(i, i + pat.len()) == pat
}

/// The first position at or after `from` where `pat` stands in `s`.
pub open spec fn find_from(s: Seq<char>, pat: Seq<char>, from: int) -> Option<int>
    decreases s.len() + 1 - from,
{
    if from < 0 || from + pat.len() > s.len() {
        None
    } else if occurs_at(s, pat, from) {
        Some(from)
    } else {
        find_from(s, pat, from + 1)
    }
}

/// The first position where `pat` stands in `s`.
pub open spec fn find(s: Seq<char>, pat: Seq<char>) -> Option<int> {
    find_from(s, pat, 0)
}

/// The pieces of `s` between the occurrences of `sep`, found from left to right.
pub open spec fn split(s: Seq<char>, sep: Seq<char>) -> Seq<Seq<char>>
    decreases s.len(),
{
    if sep.len() == 0 || find(s, sep) is None {
        seq![s]
    } else {
        proof {
            lemma_find_least(s, sep);
        }
        let i = find(s, sep)->0;
        seq![s.take(i)] + split(s.skip(i + sep.len()), sep)
    }
}

/// The parts one after the other, with `sep` between neighbours.
pub open spec fn join(parts: Seq<Seq<char>>, sep: Seq<char>) -> Seq<char>
    decreases parts.len(),
{
    if parts.len() == 0 {
        seq![]
    } else if parts.len() == 1 {
        parts[0]
    } else {
        parts[0] + sep + join(parts.skip(1), sep)
    }
}

/// Every occurrence of `from`, found from left to right, exchanged for `to`.
pub open spec fn replace(s: Seq<char>, from: Seq<char>, to: Seq<char>) -> Seq<char> {
    join(split(s, from), to)
}

/// What precedes the first occurrence of `sep`, or all of `s` where there is none.
pub open spec fn before(s: Seq<char>, sep: Seq<char>) -> Seq<char> {
    match find(s, sep) {
        Some(i) => s.take(i),
        None => s,
    }
}

/// No proper prefix of `sep` is also a suffix of it: two occurrences cannot overlap.
pub open spec fn unbordered(sep: Seq<char>) -> bool {
    &&& sep.len() > 0
    &&& forall|d: int| 0 < d < sep.len() ==> #[trigger] sep.skip(d) != sep.take(sep.len() - d)
}

/// The characters of Unicode's `White_Space` property.
pub open spec fn is_whitespace(c: char) -> bool {
    let n = c as u32;
    ||| 0x09 <= n <= 0x0d
    ||| n == 0x20
    ||| n == 0x85
    ||| n == 0xa0
    ||| n == 0x1680
    ||| 0x2000 <= n <= 0x200a
    ||| n == 0x2028
    ||| n == 0x2029
    ||| n == 0x202f
    ||| n == 0x205f
    ||| n == 0x3000
}

/// A set of characters that trimming takes away.
#[derive(Clone, Copy)]
pub enum CharClass {
    Whitespace,
    Only(char),
}

impl CharClass {
    pub open spec fn has(self, c: char) -> bool {
        match self {
            CharClass::Whitespace => is_whitespace(c),
            CharClass::Only(d) => c == d,
        }
    }

    /// Whether `c` belongs to the class.
    pub fn includes(self, c: char) -> (r: bool)
        ensures
            r == self.has(c),
    {
        match self {
            CharClass::Whitespace => {
                let n: u32 = c as u32;
                (0x09 <= n && n <= 0x0d) || n == 0x20 || n == 0x85 || n == 0xa0 || n == 0x1680
                    || (0x2000 <= n && n <= 0x200a) || n == 0x2028 || n == 0x2029 || n == 0x202f
                    || n == 0x205f || n == 0x3000
            },
            CharClass::Only(d) => c == d,
        }
    }
}

/// `s` without its longest prefix of characters of the class.
pub open spec fn trim_start(s: Seq<char>, class: CharClass) -> Seq<char>
    decreases s.len(),
{
    if s.len() > 0 && class.has(s[0]) {
        trim_start(s.skip(1), class)
    } else {
        s
    }
}

/// `s` without its longest suffix of characters of the class.
pub open spec fn trim_end(s: Seq<char>, class: CharClass) -> Seq<char>
    decreases s.len(),
{
    if s.len() > 0 && class.has(s.last()) {
        trim_end(s.drop_last(), class)
    } else {
        s
    }
}

/// `s` trimmed at both ends.
pub open spec fn trim(s: Seq<char>, class: CharClass) -> Seq<char> {
    trim_end(trim_start(s, class), class)
}

/// `s` without the leading copies of `pat`.
pub open spec fn strip_copies(s: Seq<char>, pat: Seq<char>) -> Seq<char>
    decreases s.len(),
{
    if pat.len() > 0 && occurs_at(s, pat, 0) {
        strip_copies(s.skip(pat.len() as int), pat)
    } else {
        s
    }
}

/// The models of several character vectors.
pub open spec fn views(v: Seq<Vec<char>>) -> Seq<Seq<char>> {
    v.map_values(|x: Vec<char>| x@)
}

/// The models of several strings.
pub open spec fn texts(v: Seq<String>) -> Seq<Seq<char>> {
    v.map_values(|x: String| x@)
}

/// The models of several pairs of texts.
pub open spec fn pair_views(v: Seq<(String, String)>) -> Seq<(Seq<char>, Seq<char>)> {
    v.map_values(|p: (String, String)| (p.0@, p.1@))
}

/// The model of an optional text.
pub open spec fn opt_view(s: Option<String>) -> Option<Seq<char>> {
    match s {
        Some(t) => Some(t@),
        None => None,
    }
}

/// The model of an optional pair of texts.
pub open spec fn pair_view(pair: Option<(&str, &str)>) -> Option<(Seq<char>, Seq<char>)> {
    match pair {
        Some((a, b)) => Some((a@, b@)),
        None => None,
    }
}

// ---------------------------------------------------------------------------
// Laws
// ---------------------------------------------------------------------------

pub proof fn lemma_find_from_least(s: Seq<char>, pat: Seq<char>, from: int)
    requires
        0 <= from,
    ensures
        match find_from(s, pat, from) {
            Some(i) => from <= i && occurs_at(s, pat, i) && forall|j: int|
                from <= j < i ==> !occurs_at(s, pat, j),
            None => forall|j: int| from <= j ==> !occurs_at(s, pat, j),
        },
    decreases s.len() + 1 - from,
{
    if from + pat.len() <= s.len() && !occurs_at(s, pat, from) {
        lemma_find_from_least(s, pat, from + 1);
    }
}

/// A search reports the leftmost occurrence, and nothing only where there is none.
pub proof fn lemma_find_least(s: Seq<char>, pat: Seq<char>)
    ensures
        match find(s, pat) {
            Some(i) => occurs_at(s, pat, i) && forall|j: int|
                0 <= j < i ==> !occurs_at(s, pat, j),
            None => forall|j: int| !occurs_at(s, pat, j),
        },
{
    lemma_find_from_least(s, pat, 0);
}

/// The leftmost occurrence is what a search reports.
pub proof fn lemma_find_is(s: Seq<char>, pat: Seq<char>, i: int)
    requires
        occurs_at(s, pat, i),
        forall|j: int| 0 <= j < i ==> !occurs_at(s, pat, j),
    ensures
        find(s, pat) == Some(i),
{
    lemma_find_least(s, pat);
    if find(s, pat) is Some {
        let k = find(s, pat)->0;
        if k < i {
            assert(!occurs_at(s, pat, k));
        } else if i < k {
            assert(!occurs_at(s, pat, i));
        }
    }
}

/// A text in which `pat` stands nowhere is searched in vain.
pub proof fn lemma_find_none(s: Seq<char>, pat: Seq<char>)
    requires
        forall|j: int| !occurs_at(s, pat, j),
    ensures
        find(s, pat) is None,
{
    lemma_find_least(s, pat);
}

/// Splitting a text and joining the pieces with the same separator gives the text back.
pub proof fn law_join_of_split(s: Seq<char>, sep: Seq<char>)
    ensures
        split(s, sep).len() > 0,
        join(split(s, sep), sep) == s,
    decreases s.len(),
{
    if sep.len() > 0 && find(s, sep) is Some {
        lemma_find_least(s, sep);
        let i = find(s, sep)->0;
        let rest = s.skip(i + sep.len());
        law_join_of_split(rest, sep);
        let parts = split(s, sep);
        assert(parts.skip(1) =~= split(rest, sep));
        assert(s =~= s.take(i) + s.subrange(i, i + sep.len()) + rest);
    }
}

/// No piece of a split text holds the separator.
pub proof fn law_split_parts_are_clean(s: Seq<char>, sep: Seq<char>)
    requires
        sep.len() > 0,
    ensures
        forall|k: int|
            0 <= k < split(s, sep).len() ==> find(#[trigger] split(s, sep)[k], sep) is None,
    decreases s.len(),
{
    if find(s, sep) is Some {
        lemma_find_least(s, sep);
        let i = find(s, sep)->0;
        let head = s.take(i);
        let rest = s.skip(i + sep.len());
        law_split_parts_are_clean(rest, sep);
        assert forall|j: int| !occurs_at(head, sep, j) by {
            if occurs_at(head, sep, j) {
                assert(head.subrange(j, j + sep.len()) =~= s.subrange(j, j + sep.len()));
                assert(occurs_at(s, sep, j));
            }
        }
        lemma_find_none(head, sep);
        assert forall|k: int| 0 <= k < split(s, sep).len() implies find(
            #[trigger] split(s, sep)[k],
            sep,
        ) is None by {
            if k > 0 {
                assert(split(s, sep)[k] == split(rest, sep)[k - 1]);
            }
        }
    }
}

/// Behind a text that does not hold it, an unbordered pattern is found where it stands.
pub proof fn lemma_find_behind(x: Seq<char>, pat: Seq<char>, y: Seq<char>)
    requires
        unbordered(pat),
        find(x, pat) is None,
    ensures
        find(x + pat + y, pat) == Some(x.len() as int),
{
    let s = x + pat + y;
    let k = pat.len() as int;
    let n = x.len() as int;
    lemma_find_least(x, pat);
    assert(s.subrange(n, n + k) =~= pat);
    assert forall|j: int| 0 <= j < n implies !occurs_at(s, pat, j) by {
        if occurs_at(s, pat, j) {
            if j + k <= n {
                assert(s.subrange(j, j + k) =~= x.subrange(j, j + k));
                assert(occurs_at(x, pat, j));
            } else {
                let d = n - j;
                assert forall|m: int| 0 <= m < k - d implies #[trigger] pat.skip(d)[m] == pat.take(
                    k - d,
                )[m] by {
                    assert(s.subrange(j, j + k)[m + d] == s[j + m + d]);
                    assert(s[n + m] == pat[m]);
                }
                assert(pat.skip(d) =~= pat.take(k - d));
            }
        }
    }
    lemma_find_is(s, pat, n);
}

/// A pattern whose first character does not return in it is unbordered.
pub proof fn lemma_unbordered(pat: Seq<char>)
    requires
        pat.len() > 0,
        forall|i: int| 0 < i < pat.len() ==> #[trigger] pat[i] != pat[0],
    ensures
        unbordered(pat),
{
    assert forall|d: int| 0 < d < pat.len() implies #[trigger] pat.skip(d) != pat.take(
        pat.len() - d,
    ) by {
        assert(pat.skip(d)[0] == pat[d]);
        assert(pat.take(pat.len() - d)[0] == pat[0]);
    }
}

/// Trimming takes a prefix away and adds nothing.
pub proof fn lemma_trim_start_is_suffix(s: Seq<char>, class: CharClass)
    ensures
        trim_start(s, class).len() <= s.len(),
        trim_start(s, class) == s.skip(s.len() - trim_start(s, class).len()),
    decreases s.len(),
{
    if s.len() > 0 && class.has(s[0]) {
        lemma_trim_start_is_suffix(s.skip(1), class);
        assert(s.skip(1).skip(s.len() - 1 - trim_start(s, class).len()) =~= s.skip(
            s.len() - trim_start(s, class).len(),
        ));
    } else {
        assert(s.skip(0) =~= s);
    }
}

/// Trimming ends before a character that is not of the class, and leaves what follows it.
pub proof fn lemma_trim_start_stops(x: Seq<char>, y: Seq<char>, class: CharClass)
    requires
        y.len() > 0,
        !class.has(y[0]),
    ensures
        trim_start(x + y, class) == trim_start(x, class) + y,
    decreases x.len(),
{
    if x.len() > 0 {
        assert((x + y)[0] == x[0]);
        if class.has(x[0]) {
            lemma_trim_start_stops(x.skip(1), y, class);
            assert((x + y).skip(1) =~= x.skip(1) + y);
        }
    } else {
        assert(x + y =~= y);
        assert(trim_start(x, class) + y =~= y);
    }
}

/// A separator between two texts splits them apart.
pub proof fn law_split_of_append(x: Seq<char>, sep: Seq<char>, y: Seq<char>)
    requires
        unbordered(sep),
    ensures
        split(x + sep + y, sep) == split(x, sep) + split(y, sep),
    decreases x.len(),
{
    let s = x + sep + y;
    let k = sep.len() as int;
    lemma_find_least(x, sep);
    if find(x, sep) is Some {
        let i = find(x, sep)->0;
        assert(s.subrange(i, i + k) =~= x.subrange(i, i + k));
        assert forall|j: int| 0 <= j < i implies !occurs_at(s, sep, j) by {
            if occurs_at(s, sep, j) {
                assert(s.subrange(j, j + k) =~= x.subrange(j, j + k));
                assert(occurs_at(x, sep, j));
            }
        }
        lemma_find_is(s, sep, i);
        law_split_of_append(x.skip(i + k), sep, y);
        assert(s.skip(i + k) =~= x.skip(i + k) + sep + y);
        assert(s.take(i) =~= x.take(i));
        assert(split(s, sep) =~= split(x, sep) + split(y, sep));
    } else {
        let n = x.len() as int;
        lemma_find_behind(x, sep, y);
        assert(s.take(n) =~= x);
        assert(s.skip(n + k) =~= y);
    }
}

/// Parts that do not hold the separator come back when their join is split.
pub proof fn law_split_of_join(parts: Seq<Seq<char>>, sep: Seq<char>)
    requires
        unbordered(sep),
        parts.len() > 0,
        forall|k: int| 0 <= k < parts.len() ==> find(#[trigger] parts[k], sep) is None,
    ensures
        split(join(parts, sep), sep) == parts,
    decreases parts.len(),
{
    if parts.len() == 1 {
        assert(find(parts[0], sep) is None);
        assert(seq![parts[0]] =~= parts);
    } else {
        let rest = parts.skip(1);
        assert forall|k: int| 0 <= k < rest.len() implies find(#[trigger] rest[k], sep) is None by {
            assert(rest[k] == parts[k + 1]);
        }
        law_split_of_join(rest, sep);
        law_split_of_append(parts[0], sep, join(rest, sep));
        assert(find(parts[0], sep) is None);
        assert(seq![parts[0]] + rest =~= parts);
    }
}

/// A text that does not hold `from` is left alone by a replacement.
pub proof fn law_replace_leaves_other_text(s: Seq<char>, from: Seq<char>, to: Seq<char>)
    requires
        find(s, from) is None,
    ensures
        replace(s, from, to) == s,
{
}

/// A one-character separator stands nowhere in a text without that character.
pub proof fn lemma_find_single(s: Seq<char>, c: char)
    requires
        !s.contains(c),
    ensures
        find(s, seq![c]) is None,
{
    assert forall|j: int| !occurs_at(s, seq![c], j) by {
        if occurs_at(s, seq![c], j) {
            assert(s.subrange(j, j + 1)[0] == c);
            assert(s[j] == c);
        }
    }
    lemma_find_none(s, seq![c]);
}

/// Lists of parts that are joined one behind the other have the separator between them, and
/// a single part is joined as it is.
pub proof fn law_join_of_append(x: Seq<Seq<char>>, y: Seq<Seq<char>>, sep: Seq<char>)
    requires
        x.len() > 0,
        y.len() > 0,
    ensures
        join(x + y, sep) == join(x, sep) + sep + join(y, sep),
        x.len() == 1 ==> join(x, sep) == x[0],
    decreases x.len(),
{
    let both = x + y;
    assert(both[0] == x[0]);
    if x.len() == 1 {
        assert(both.skip(1) =~= y);
    } else {
        assert(both.skip(1) =~= x.skip(1) + y);
        law_join_of_append(x.skip(1), y, sep);
        assert(join(both, sep) =~= join(x, sep) + sep + join(y, sep));
    }
}

/// Trimming at the start takes away characters of the class only, and all of those that
/// stand there.
pub proof fn law_trim_start(p: Seq<char>, t: Seq<char>, class: CharClass)
    requires
        forall|i: int| 0 <= i < p.len() ==> class.has(#[trigger] p[i]),
        t.len() > 0 ==> !class.has(t[0]),
    ensures
        trim_start(p + t, class) == t,
    decreases p.len(),
{
    if p.len() == 0 {
        assert(p + t =~= t);
    } else {
        assert((p + t)[0] == p[0]);
        let q = p.skip(1);
        assert forall|i: int| 0 <= i < q.len() implies class.has(#[trigger] q[i]) by {
            assert(q[i] == p[i + 1]);
        }
        law_trim_start(q, t, class);
        assert((p + t).skip(1) =~= q + t);
    }
}

/// Trimming at the end takes away characters of the class only, and all of those that stand
/// there.
pub proof fn law_trim_end(t: Seq<char>, q: Seq<char>, class: CharClass)
    requires
        forall|i: int| 0 <= i < q.len() ==> class.has(#[trigger] q[i]),
        t.len() > 0 ==> !class.has(t.last()),
    ensures
        trim_end(t + q, class) == t,
    decreases q.len(),
{
    if q.len() == 0 {
        assert(t + q =~= t);
    } else {
        assert((t + q).last() == q[q.len() - 1]);
        let p = q.drop_last();
        assert forall|i: int| 0 <= i < p.len() implies class.has(#[trigger] p[i]) by {
            assert(p[i] == q[i]);
        }
        law_trim_end(t, p, class);
        assert((t + q).drop_last() =~= t + p);
    }
}

/// Trimming takes away what stands of the class at either end, and nothing between.
pub proof fn law_trim(p: Seq<char>, t: Seq<char>, q: Seq<char>, class: CharClass)
    requires
        forall|i: int| 0 <= i < p.len() ==> class.has(#[trigger] p[i]),
        forall|i: int| 0 <= i < q.len() ==> class.has(#[trigger] q[i]),
        t.len() > 0,
        !class.has(t[0]),
        !class.has(t.last()),
    ensures
        trim(p + t + q, class) == t,
{
    assert(p + t + q =~= p + (t + q));
    law_trim_start(p, t + q, class);
    law_trim_end(t, q, class);
}

/// What precedes a separator is all that stands before its first occurrence.
pub proof fn law_before(x: Seq<char>, sep: Seq<char>, y: Seq<char>)
    requires
        unbordered(sep),
        find(x, sep) is None,
    ensures
        before(x + sep + y, sep) == x,
        before(x, sep) == x,
{
    lemma_find_behind(x, sep, y);
    assert((x + sep + y).take(x.len() as int) =~= x);
}

/// A replacement exchanges an occurrence and goes on behind it.
pub proof fn law_replace_of_append(x: Seq<char>, from: Seq<char>, y: Seq<char>, to: Seq<char>)
    requires
        unbordered(from),
    ensures
        replace(x + from + y, from, to) == replace(x, from, to) + to + replace(y, from, to),
{
    law_split_of_append(x, from, y);
    law_join_of_split(x, from);
    law_join_of_split(y, from);
    law_join_of_append(split(x, from), split(y, from), to);
}

/// Leading copies are taken away one by one; a text that does not start with one stays.
pub proof fn law_strip_copies(pat: Seq<char>, s: Seq<char>)
    requires
        pat.len() > 0,
    ensures
        strip_copies(pat + s, pat) == strip_copies(s, pat),
        !occurs_at(s, pat, 0) ==> strip_copies(s, pat) == s,
{
    assert((pat + s).subrange(0, pat.len() as int) =~= pat);
    assert((pat + s).skip(pat.len() as int) =~= s);
}

/// A pattern whose first character stands nowhere before it is found where it stands.
pub proof fn lemma_find_first_char(x: Seq<char>, pat: Seq<char>, y: Seq<char>)
    requires
        pat.len() > 0,
        !x.contains(pat[0]),
    ensures
        find(x, pat) is None,
        find(x + pat + y, pat) == Some(x.len() as int),
{
    let s = x + pat + y;
    let n = x.len() as int;
    let k = pat.len() as int;
    assert(s.subrange(n, n + k) =~= pat);
    assert forall|j: int| 0 <= j < n implies !occurs_at(s, pat, j) by {
        if occurs_at(s, pat, j) {
            assert(s.subrange(j, j + k)[0] == s[j]);
            assert(x[j] == pat[0]);
        }
    }
    lemma_find_is(s, pat, n);
    assert forall|j: int| !occurs_at(x, pat, j) by {
        if occurs_at(x, pat, j) {
            assert(x.subrange(j, j + k)[0] == x[j]);
        }
    }
    lemma_find_none(x, pat);
}

/// A pattern whose last character does not stand in it before is unbordered.
pub proof fn lemma_unbordered_by_last(pat: Seq<char>)
    requires
        pat.len() > 0,
        forall|i: int| 0 <= i < pat.len() - 1 ==> #[trigger] pat[i] != pat.last(),
    ensures
        unbordered(pat),
{
    assert forall|d: int| 0 < d < pat.len() implies #[trigger] pat.skip(d) != pat.take(
        pat.len() - d,
    ) by {
        let m = pat.len() - d - 1;
        assert(pat.skip(d)[m] == pat.last());
        assert(pat.take(pat.len() - d)[m] == pat[m]);
    }
}

// ---------------------------------------------------------------------------
// Code
// ---------------------------------------------------------------------------

/// The characters of a text.
pub fn chars_of(s: &str) -> (r: Vec<char>)
    ensures
        r@ == s@,
{
    let mut out: Vec<char> = Vec::new();
    for c in it: s.chars()
        invariant
            out@ == it.seq().take(it.index() as int),
            it.seq() == s@,
    {
        out.push(c);
    }
    out
}

/// The text made of the given characters.
pub fn string_of(chars: &[char]) -> (r: String)
    ensures
        r@ == chars@,
{
    let mut out = String::new();
    for i in 0..chars.len()
        invariant
            out@ == chars@.take(i as int),
    {
        out.push(chars[i]);
    }
    out
}

/// Whether two character sequences are the same.
pub fn same_chars(a: &[char], b: &[char]) -> (r: bool)
    ensures
        r == (a@ == b@),
{
    if a.len() != b.len() {
        return false;
    }
    for i in 0..a.len()
        invariant
            a@.len() == b@.len(),
            forall|j: int| 0 <= j < i ==> a@[j] == b@[j],
    {
        if a[i] != b[i] {
            return false;
        }
    }
    assert(a@ =~= b@);
    true
}

/// Whether two texts are the same.
pub fn same_text(a: &str, b: &str) -> (r: bool)
    ensures
        r == (a@ == b@),
{
    let x = chars_of(a);
    let y = chars_of(b);
    same_chars(&x, &y)
}

/// Whether `pat` stands in `s` at position `i`.
pub fn stands_at(s: &[char], pat: &[char], i: usize) -> (r: bool)
    ensures
        r == occurs_at(s@, pat@, i as int),
{
    if pat.len() > s.len() || i > s.len() - pat.len() {
        return false;
    }
    let mut k: usize = 0;
    while k < pat.len()
        invariant
            k <= pat@.len(),
            i + pat@.len() <= s@.len() <= usize::MAX,
            forall|m: int| 0 <= m < k ==> s@[i + m] == pat@[m],
        decreases pat@.len() - k,
    {
        if s[i + k] != pat[k] {
            assert(s@.subrange(i as int, i + pat@.len())[k as int] != pat@[k as int]);
            return false;
        }
        k += 1;
    }
    assert(s@.subrange(i as int, i + pat@.len()) =~= pat@);
    true
}

/// The first position where `pat` stands in `s`.
pub fn find_chars(s: &[char], pat: &[char]) -> (r: Option<usize>)
    ensures
        match r {
            Some(i) => find(s@, pat@) == Some(i as int) && i + pat@.len() <= s@.len() <= usize::MAX,
            None => find(s@, pat@) is None,
        },
{
    if pat.len() > s.len() {
        return None;
    }
    let last: usize = s.len() - pat.len();
    let mut i: usize = 0;
    loop
        invariant
            i <= last,
            last == s@.len() - pat@.len(),
            s@.len() <= usize::MAX,
            find(s@, pat@) == find_from(s@, pat@, i as int),
        decreases last - i,
    {
        if stands_at(s, pat, i) {
            return Some(i);
        }
        if i == last {
            assert(find_from(s@, pat@, i + 1) is None);
            return None;
        }
        i += 1;
    }
}

/// Whether `pat` stands anywhere in the text.
pub fn contains_text(s: &[char], pat: &str) -> (r: bool)
    ensures
        r == (find(s@, pat@) is Some),
{
    let p = chars_of(pat);
    find_chars(s, &p).is_some()
}

/// Whether the text starts with `pat`.
pub fn starts_with(s: &[char], pat: &str) -> (r: bool)
    ensures
        r == occurs_at(s@, pat@, 0),
{
    let p = chars_of(pat);
    stands_at(s, &p, 0)
}

/// The pieces of `s` between the occurrences of `sep`.
pub fn split_chars(s: &[char], sep: &[char]) -> (r: Vec<Vec<char>>)
    requires
        sep@.len() > 0,
    ensures
        views(r@) == split(s@, sep@),
{
    let mut out: Vec<Vec<char>> = Vec::new();
    let mut rest: &[char] = s;
    assert(views(out@) + split(rest@, sep@) =~= split(s@, sep@));
    loop
        invariant
            sep@.len() > 0,
            views(out@) + split(rest@, sep@) == split(s@, sep@),
        decreases rest@.len(),
    {
        match find_chars(rest, sep) {
            Some(i) => {
                let head = slice_subrange(rest, 0, i);
                let ghost before_push = out@;
                let ghost whole = rest@;
                out.push(slice_to_vec(head));
                let end: usize = rest.len();
                rest = slice_subrange(rest, i + sep.len(), end);
                proof {
                    assert(head@ =~= whole.take(i as int));
                    assert(rest@ =~= whole.skip(i + sep@.len()));
                    assert(views(out@) =~= views(before_push).push(whole.take(i as int)));
                    assert(views(out@) + split(rest@, sep@) =~= views(before_push) + split(
                        whole,
                        sep@,
                    ));
                }
            },
            None => {
                let ghost before_push = out@;
                out.push(slice_to_vec(rest));
                proof {
                    assert(views(out@) =~= views(before_push).push(rest@));
                    assert(views(out@) =~= views(before_push) + split(rest@, sep@));
                }
                return out;
            },
        }
    }
}

/// The parts one after the other, with `sep` between neighbours.
pub fn join_chars(parts: &Vec<Vec<char>>, sep: &[char]) -> (r: Vec<char>)
    ensures
        r@ == join(views(parts@), sep@),
{
    let mut out: Vec<char> = Vec::new();
    let ghost all = views(parts@);
    let mut i: usize = 0;
    assert(all.skip(0) =~= all);
    while i < parts.len()
        invariant
            i <= parts@.len(),
            all == views(parts@),
            i == 0 ==> out@ =~= seq![] && join(all, sep@) == join(all.skip(0), sep@),
            i > 0 ==> join(all, sep@) == out@ + (if i < all.len() {
                sep@ + join(all.skip(i as int), sep@)
            } else {
                seq![]
            }),
        decreases parts@.len() - i,
    {
        let ghost old_out = out@;
        if i > 0 {
            push_all(&mut out, sep);
        }
        push_all(&mut out, &parts[i]);
        proof {
            let tail = all.skip(i as int);
            assert(tail[0] == parts@[i as int]@);
            assert(tail.skip(1) =~= all.skip(i + 1));
            if tail.len() > 1 {
                assert(join(tail, sep@) == tail[0] + sep@ + join(tail.skip(1), sep@));
                assert(join(all, sep@) =~= out@ + (sep@ + join(all.skip(i + 1), sep@)));
            } else {
                assert(join(tail, sep@) == tail[0]);
                assert(join(all, sep@) =~= out@ + seq![]);
            }
        }
        i += 1;
    }
    assert(out@ =~= join(all, sep@));
    out
}

/// Appends all of `more` to `out`.
pub fn push_all(out: &mut Vec<char>, more: &[char])
    ensures
        final(out)@ == old(out)@ + more@,
{
    for k in 0..more.len()
        invariant
            out@ == old(out)@ + more@.take(k as int),
    {
        out.push(more[k]);
    }
    assert(more@.take(more@.len() as int) =~= more@);
}

/// The parts one after the other, with `sep` between neighbours.
pub fn join_texts(parts: &Vec<String>, sep: &str) -> (r: String)
    ensures
        r@ == join(texts(parts@), sep@),
{
    let mut list: Vec<Vec<char>> = Vec::new();
    for i in 0..parts.len()
        invariant
            list@.len() == i,
            forall|j: int| 0 <= j < i ==> (#[trigger] list@[j])@ == parts@[j]@,
    {
        list.push(chars_of(parts[i].as_str()));
    }
    assert(views(list@) =~= texts(parts@));
    let between = chars_of(sep);
    let joined = join_chars(&list, &between);
    string_of(&joined)
}

/// Two texts, one behind the other.
pub fn concat(a: &str, b: &str) -> (r: String)
    ensures
        r@ == a@ + b@,
{
    let mut out = a.to_string();
    out.append(b);
    out
}

/// A pair of texts.
pub fn text_pair(a: &str, b: &str) -> (r: (String, String))
    ensures
        r.0@ == a@,
        r.1@ == b@,
{
    (a.to_string(), b.to_string())
}

/// Every occurrence of `from` exchanged for `to`.
pub fn replace_chars(s: &[char], from: &str, to: &str) -> (r: Vec<char>)
    requires
        from@.len() > 0,
    ensures
        r@ == replace(s@, from@, to@),
{
    let sep = chars_of(from);
    let pieces = split_chars(s, &sep);
    let between = chars_of(to);
    join_chars(&pieces, &between)
}

/// The text without its leading characters of the class.
pub fn trim_start_chars(s: &[char], class: CharClass) -> (r: &[char])
    ensures
        r@ == trim_start(s@, class),
{
    let mut i: usize = 0;
    assert(s@.skip(0) =~= s@);
    while i < s.len() && class.includes(s[i])
        invariant
            i <= s@.len(),
            trim_start(s@, class) == trim_start(s@.skip(i as int), class),
        decreases s@.len() - i,
    {
        assert(s@.skip(i as int).skip(1) =~= s@.skip(i + 1));
        i += 1;
    }
    slice_subrange(s, i, s.len())
}

/// The text without its trailing characters of the class.
pub fn trim_end_chars(s: &[char], class: CharClass) -> (r: &[char])
    ensures
        r@ == trim_end(s@, class),
{
    let mut n: usize = s.len();
    assert(s@.take(n as int) =~= s@);
    while n > 0 && class.includes(s[n - 1])
        invariant
            n <= s@.len(),
            trim_end(s@, class) == trim_end(s@.take(n as int), class),
        decreases n,
    {
        assert(s@.take(n as int).drop_last() =~= s@.take(n - 1));
        n -= 1;
    }
    slice_subrange(s, 0, n)
}

/// The text trimmed at both ends.
pub fn trim_chars(s: &[char], class: CharClass) -> (r: &[char])
    ensures
        r@ == trim(s@, class),
{
    trim_end_chars(trim_start_chars(s, class), class)
}

/// The text without its leading copies of `pat`.
pub fn strip_leading_copies<'a>(s: &'a [char], pat: &str) -> (r: &'a [char])
    requires
        pat@.len() > 0,
    ensures
        r@ == strip_copies(s@, pat@),
{
    let p = chars_of(pat);
    let mut rest: &'a [char] = s;
    while stands_at(rest, &p, 0)
        invariant
            p@ == pat@,
            pat@.len() > 0,
            strip_copies(rest@, pat@) == strip_copies(s@, pat@),
        decreases rest@.len(),
    {
        let ghost whole = rest@;
        rest = slice_subrange(rest, p.len(), rest.len());
        assert(rest@ =~= whole.skip(pat@.len() as int));
    }
    rest
}

/// What precedes the first occurrence of `sep`, or everything.
pub fn cut_before(s: &[char], sep: &str) -> (r: String)
    ensures
        r@ == before(s@, sep@),
{
    let p = chars_of(sep);
    match find_chars(s, &p) {
        Some(i) => {
            let head = slice_subrange(s, 0, i);
            assert(head@ =~= s@.take(i as int));
            string_of(head)
        },
        None => string_of(s),
    }
}

/// Lists and optional texts are seen text by text, in their order.
pub proof fn law_texts_are_seen_one_by_one(
    chars: Seq<Vec<char>>,
    list: Seq<String>,
    pairs: Seq<(String, String)>,
    text: String,
    k: int,
)
    ensures
        views(chars).len() == chars.len(),
        0 <= k < chars.len() ==> views(chars)[k] == chars[k]@,
        texts(list).len() == list.len(),
        0 <= k < list.len() ==> texts(list)[k] == list[k]@,
        pair_views(pairs).len() == pairs.len(),
        0 <= k < pairs.len() ==> pair_views(pairs)[k] == (pairs[k].0@, pairs[k].1@),
        opt_view(Some(text)) == Some(text@),
        opt_view(None) is None,
{
}

} // verus!
