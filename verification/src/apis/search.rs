//! Searching for books: the request, and what a page of results shows.

use vstd::prelude::*;

use crate::client::challenge::{ChallengeCookies, CookiesView};
use crate::client::cookies::{
    is_clean_jar, law_cookie_carries_the_challenge, lemma_site_mode, pick_segments,
};
use crate::client::sni::{
    body_text, cookie_fits, lemma_single_header_fits, Method, RequestBuilder, Response,
    SniBypassClient, ORIGIN_DOMAIN,
};
use crate::headers::{put, HeaderTable};
use crate::models::book::{blank_book, book_views, BookInfo, BookView, SearchResult};
use crate::number::{decimal, law_decimal_limits, parse_unsigned, push_decimal, read_u32};
use crate::pattern::{first_group, group_pairs, match_group, match_pairs};
use crate::text::{
    chars_of, concat, find, is_whitespace, join, join_texts, law_replace_of_append,
    lemma_find_behind, lemma_find_least, lemma_find_none, lemma_find_single,
    lemma_trim_start_is_suffix, lemma_trim_start_stops, lemma_unbordered, occurs_at, opt_view,
    pair_views, replace, replace_chars, same_text, split, string_of, texts, trim_start, CharClass,
};

verus! {

/// Where a page shows how many books were found.
pub const TOTAL_PATTERN: &'static str = r#"data-type="book"[^>]*>[^<]*Books[^(]*\(([0-9]+)\)"#;

/// Where a page shows how many pages there are.
pub const PAGES_PATTERN: &'static str = r#"pagesTotal:\s*(\d+)"#;

/// A book on a page: its attributes and its content.
pub const CARD_PATTERN: &'static str =
    r#"<z-bookcard\s+(?P<attrs>[^>]*?)>(?P<content>[\s\S]*?)</z-bookcard>"#;

/// An attribute: its name and its value.
pub const ATTRIBUTE_PATTERN: &'static str = r#"(\w+)\s*=\s*"([^"]*)""#;

/// The title in the content of a book.
pub const TITLE_PATTERN: &'static str = r#"<div\s+slot="title">([\s\S]*?)</div>"#;

/// The author in the content of a book.
pub const AUTHOR_PATTERN: &'static str = r#"<div\s+slot="author">([\s\S]*?)</div>"#;

/// The cover in the content of a book.
pub const IMAGE_PATTERN: &'static str = r#"<img\s+[^>]*?data-src="([^"]*)""#;

// ---------------------------------------------------------------------------
// The request
// ---------------------------------------------------------------------------

/// A query as a segment of a path: a blank is written as `%20`. A plus sign would be taken
/// for part of the words to be found.
pub open spec fn encoded_query(s: Seq<char>) -> Seq<char>
    decreases s.len(),
{
    if s.len() == 0 {
        seq![]
    } else {
        encoded_query(s.drop_last()) + (if s.last() == ' ' {
            "%20"@
        } else {
            seq![s.last()]
        })
    }
}

/// The cookie of a search or a login: the challenge cookies and the kind of site.
pub open spec fn plain_cookie(jar: CookiesView) -> Seq<char> {
    join(seq![jar.text(), "selectedSiteMode=books"@], "; "@)
}

/// The URL of a page of results.
pub open spec fn search_url(query: Seq<char>, page: u32) -> Seq<char> {
    "https://"@ + ORIGIN_DOMAIN@ + "/s/"@ + encoded_query(query) + "?page="@ + decimal(page as nat)
}

/// Writes a query as a segment of a path.
pub fn urlencoding(s: &str) -> (r: String)
    ensures
        r@ == encoded_query(s@),
{
    let chars = chars_of(s);
    let mut out = String::new();
    for i in 0..chars.len()
        invariant
            chars@ == s@,
            out@ == encoded_query(chars@.take(i as int)),
    {
        assert(chars@.take(i + 1).drop_last() =~= chars@.take(i as int));
        assert(chars@.take(i + 1).last() == chars@[i as int]);
        let ghost front = out@;
        if chars[i] == ' ' {
            out.append("%20");
        } else {
            out.push(chars[i]);
            assert(out@ =~= front + seq![chars@[i as int]]);
        }
    }
    assert(chars@.take(chars@.len() as int) =~= s@);
    out
}

/// The cookie of a search or a login.
pub fn build_cookie(jar: &ChallengeCookies) -> (r: String)
    ensures
        r@ == plain_cookie(jar@),
{
    let mut parts: Vec<String> = Vec::new();
    parts.push(jar.cookie_str());
    parts.push("selectedSiteMode=books".to_string());
    assert(texts(parts@) =~= seq![jar@.text(), "selectedSiteMode=books"@]);
    join_texts(&parts, "; ")
}

/// The request for a page of results.
pub fn search_request<C: Clone>(
    client: &SniBypassClient<C>,
    jar: &ChallengeCookies,
    query: &str,
    page: u32,
) -> (r: RequestBuilder<C>)
    ensures
        r.method == Method::Get,
        r.url@ == search_url(query@, page),
        r.table() == put(HeaderTable::empty(), "Cookie"@, plain_cookie(jar@)),
        r.body is None,
        r.max_redirect == 10,
        cookie_fits(r.table()),
        cloned(client.inner, r.client),
{
    let mut url = concat("https://", ORIGIN_DOMAIN);
    url.append("/s/");
    let encoded = urlencoding(query);
    url.append(encoded.as_str());
    url.append("?page=");
    push_decimal(page as u64, &mut url);
    let cookie = build_cookie(jar);
    proof {
        lemma_single_header_fits("Cookie"@, cookie@);
    }
    client.get(url.as_str()).header_str("Cookie", cookie.as_str())
}

// ---------------------------------------------------------------------------
// The page
// ---------------------------------------------------------------------------

/// A text of a page with its character references resolved, those for `&` first.
pub open spec fn unescaped(s: Seq<char>) -> Seq<char> {
    let s1 = replace(s, "&amp;"@, "&"@);
    let s2 = replace(s1, "&lt;"@, "<"@);
    let s3 = replace(s2, "&gt;"@, ">"@);
    let s4 = replace(s3, "&quot;"@, "\""@);
    let s5 = replace(s4, "&#39;"@, "'"@);
    let s6 = replace(s5, "&#x27;"@, "'"@);
    replace(s6, "&nbsp;"@, " "@)
}

/// A path of the site as a URL.
pub open spec fn site_url(path: Seq<char>) -> Seq<char> {
    "https://"@ + ORIGIN_DOMAIN@ + path
}

/// A book after one of its attributes was read; an unknown attribute changes nothing.
pub open spec fn with_attribute(
    book: BookView,
    name: Seq<char>,
    value: Seq<char>,
) -> BookView {
    if name == "id"@ {
        BookView { id: value, ..book }
    } else if name == "isbn"@ {
        BookView { isbn: value, ..book }
    } else if name == "href"@ {
        BookView { detail_url: site_url(value), ..book }
    } else if name == "download"@ {
        BookView { download_url: site_url(value), ..book }
    } else if name == "publisher"@ {
        BookView { publisher: value, ..book }
    } else if name == "language"@ {
        BookView { language: value, ..book }
    } else if name == "year"@ {
        BookView { year: value, ..book }
    } else if name == "extension"@ {
        BookView { extension: value, ..book }
    } else if name == "filesize"@ {
        BookView { file_size: value, ..book }
    } else if name == "rating"@ {
        BookView { rating: value, ..book }
    } else if name == "quality"@ {
        BookView { quality: value, ..book }
    } else {
        book
    }
}

/// A book after several attributes were read, one after the other.
pub open spec fn with_attributes(
    book: BookView,
    attributes: Seq<(Seq<char>, Seq<char>)>,
) -> BookView
    decreases attributes.len(),
{
    if attributes.len() == 0 {
        book
    } else {
        with_attribute(
            with_attributes(book, attributes.drop_last()),
            attributes.last().0,
            attributes.last().1,
        )
    }
}

/// A book, given its attributes and, where the page shows them, its title, author and cover.
pub open spec fn card_book(
    attributes: Seq<(Seq<char>, Seq<char>)>,
    title: Option<Seq<char>>,
    author: Option<Seq<char>>,
    image: Option<Seq<char>>,
) -> BookView {
    let book = with_attributes(blank_book(), attributes);
    BookView {
        title: match title {
            Some(t) => unescaped(t),
            None => book.title,
        },
        author: match author {
            Some(a) => unescaped(a),
            None => book.author,
        },
        image_url: match image {
            Some(i) => i,
            None => book.image_url,
        },
        ..book
    }
}

/// What stands behind the opening of a card: its attributes, its content, and the rest of
/// the page. The attributes follow some white space and go up to the next `>`, the content
/// goes from there up to the next `</z-bookcard>`.
pub open spec fn card_behind(s: Seq<char>) -> Option<(Seq<char>, Seq<char>, Seq<char>)> {
    let inner = trim_start(s, CharClass::Whitespace);
    if inner.len() == s.len() {
        None
    } else {
        match find(inner, ">"@) {
            Some(e) => {
                let after = inner.skip(e + 1);
                match find(after, "</z-bookcard>"@) {
                    Some(c) => Some(
                        (inner.take(e), after.take(c), after.skip(c + "</z-bookcard>"@.len())),
                    ),
                    None => None,
                }
            },
            None => None,
        }
    }
}

/// The cards on a page, each with its attributes and its content.
pub open spec fn page_cards(html: Seq<char>) -> Seq<(Seq<char>, Seq<char>)>
    decreases html.len(),
{
    match find(html, "<z-bookcard"@) {
        Some(i) => {
            proof {
                lemma_cards_shrink(html);
            }
            match card_behind(html.skip(i + "<z-bookcard"@.len())) {
                Some((attrs, content, rest)) => seq![(attrs, content)] + page_cards(rest),
                None => page_cards(html.skip(i + 1)),
            }
        },
        None => seq![],
    }
}

/// Behind the opening of a card there is less than the whole page.
pub proof fn lemma_cards_shrink(html: Seq<char>)
    ensures
        find(html, "<z-bookcard"@) matches Some(i) ==> 0 <= i < html.len() && (card_behind(
            html.skip(i + "<z-bookcard"@.len()),
        ) matches Some((_, _, rest)) ==> rest.len() < html.len()),
{
    reveal_strlit("<z-bookcard");
    reveal_strlit(">");
    lemma_find_least(html, "<z-bookcard"@);
    if let Some(i) = find(html, "<z-bookcard"@) {
        let s = html.skip(i + "<z-bookcard"@.len());
        let inner = trim_start(s, CharClass::Whitespace);
        lemma_trim_start_is_suffix(s, CharClass::Whitespace);
        lemma_find_least(inner, ">"@);
        if let Some(e) = find(inner, ">"@) {
            lemma_find_least(inner.skip(e + 1), "</z-bookcard>"@);
        }
    }
}

/// The book that a card shows.
pub open spec fn book_shown(card: (Seq<char>, Seq<char>)) -> BookView {
    card_book(
        group_pairs(ATTRIBUTE_PATTERN@, card.0),
        first_group(TITLE_PATTERN@, card.1),
        first_group(AUTHOR_PATTERN@, card.1),
        first_group(IMAGE_PATTERN@, card.1),
    )
}

/// The books on a page.
pub open spec fn page_books(html: Seq<char>) -> Seq<BookView> {
    page_cards(html).map_values(|card: (Seq<char>, Seq<char>)| book_shown(card))
}

/// The number that a pattern finds on a page.
pub open spec fn page_number(pattern: Seq<char>, html: Seq<char>) -> Option<nat> {
    match first_group(pattern, html) {
        Some(s) => parse_unsigned(s, 10, u32::MAX as nat),
        None => None,
    }
}

/// How many books were found: as the page says, else as many as it shows.
pub open spec fn total_books(shown: nat, total: Option<nat>) -> nat {
    match total {
        Some(n) => n,
        None => shown % 0x1_0000_0000,
    }
}

/// How many pages there are: as the page says, but at least one.
pub open spec fn total_pages(pages: Option<nat>) -> nat {
    match pages {
        Some(n) => if n > 1 {
            n
        } else {
            1
        },
        None => 1,
    }
}

/// The model of an optional number.
pub open spec fn opt_number(n: Option<u32>) -> Option<nat> {
    match n {
        Some(n) => Some(n as nat),
        None => None,
    }
}

/// Resolves the character references in a text of a page.
pub fn html_unescape(s: &str) -> (r: String)
    ensures
        r@ == unescaped(s@),
{
    proof {
        reveal_strlit("&amp;");
        reveal_strlit("&lt;");
        reveal_strlit("&gt;");
        reveal_strlit("&quot;");
        reveal_strlit("&#39;");
        reveal_strlit("&#x27;");
        reveal_strlit("&nbsp;");
    }
    let s0 = chars_of(s);
    let s1 = replace_chars(&s0, "&amp;", "&");
    let s2 = replace_chars(&s1, "&lt;", "<");
    let s3 = replace_chars(&s2, "&gt;", ">");
    let s4 = replace_chars(&s3, "&quot;", "\"");
    let s5 = replace_chars(&s4, "&#39;", "'");
    let s6 = replace_chars(&s5, "&#x27;", "'");
    let s7 = replace_chars(&s6, "&nbsp;", " ");
    string_of(&s7)
}

/// A path of the site as a URL.
fn url_of_path(path: &str) -> (r: String)
    ensures
        r@ == site_url(path@),
{
    let mut out = concat("https://", ORIGIN_DOMAIN);
    out.append(path);
    out
}

/// Takes an attribute over into a book.
pub fn set_attribute(book: &mut BookInfo, name: &str, value: &String)
    ensures
        final(book)@ == with_attribute(old(book)@, name@, value@),
{
    if same_text(name, "id") {
        book.id = value.clone();
    } else if same_text(name, "isbn") {
        book.isbn = value.clone();
    } else if same_text(name, "href") {
        book.detail_url = url_of_path(value.as_str());
    } else if same_text(name, "download") {
        book.download_url = url_of_path(value.as_str());
    } else if same_text(name, "publisher") {
        book.publisher = value.clone();
    } else if same_text(name, "language") {
        book.language = value.clone();
    } else if same_text(name, "year") {
        book.year = value.clone();
    } else if same_text(name, "extension") {
        book.extension = value.clone();
    } else if same_text(name, "filesize") {
        book.file_size = value.clone();
    } else if same_text(name, "rating") {
        book.rating = value.clone();
    } else if same_text(name, "quality") {
        book.quality = value.clone();
    }
}

/// A book, given its attributes and, where the page shows them, its title, author and cover.
pub fn book_of_card(
    attributes: &Vec<(String, String)>,
    title: Option<String>,
    author: Option<String>,
    image: Option<String>,
) -> (r: BookInfo)
    ensures
        r@ == card_book(
            pair_views(attributes@),
            opt_view(title),
            opt_view(author),
            opt_view(image),
        ),
{
    let ghost all = pair_views(attributes@);
    let mut book = BookInfo::default();
    let mut i: usize = 0;
    while i < attributes.len()
        invariant
            i <= attributes@.len(),
            all == pair_views(attributes@),
            book@ == with_attributes(blank_book(), all.take(i as int)),
        decreases attributes@.len() - i,
    {
        assert(all.take(i + 1).drop_last() =~= all.take(i as int));
        assert(all.take(i + 1).last() == (attributes@[i as int].0@, attributes@[i as int].1@));
        set_attribute(&mut book, attributes[i].0.as_str(), &attributes[i].1);
        i += 1;
    }
    assert(all.take(all.len() as int) =~= all);
    if let Some(t) = title {
        book.title = html_unescape(t.as_str());
    }
    if let Some(a) = author {
        book.author = html_unescape(a.as_str());
    }
    if let Some(i) = image {
        book.image_url = i;
    }
    book
}

/// Reads the books off a page.
pub fn parse_books(html: &str) -> (r: Vec<BookInfo>)
    ensures
        book_views(r@) == page_books(html@),
{
    let cards = match_pairs(CARD_PATTERN, html);
    let mut books: Vec<BookInfo> = Vec::new();
    let mut i: usize = 0;
    assert(pair_views(cards@).len() == page_books(html@).len());
    while i < cards.len()
        invariant
            i <= cards@.len(),
            cards@.len() == page_books(html@).len(),
            pair_views(cards@) == page_cards(html@),
            books@.len() == i,
            forall|k: int| 0 <= k < i ==> (#[trigger] books@[k])@ == page_books(html@)[k],
        decreases cards@.len() - i,
    {
        let attrs = cards[i].0.as_str();
        let content = cards[i].1.as_str();
        assert(pair_views(cards@)[i as int] == (attrs@, content@));
        let attributes = match_pairs(ATTRIBUTE_PATTERN, attrs);
        let title = match_group(TITLE_PATTERN, content);
        let author = match_group(AUTHOR_PATTERN, content);
        let image = match_group(IMAGE_PATTERN, content);
        let book = book_of_card(&attributes, title, author, image);
        books.push(book);
        i += 1;
    }
    assert(book_views(books@) =~= page_books(html@));
    books
}

/// Reads the number that a pattern finds on a page.
fn parse_page_number(pattern: &str, html: &str) -> (r: Option<u32>)
    ensures
        opt_number(r) == page_number(pattern@, html@),
{
    match match_group(pattern, html) {
        Some(s) => {
            let chars = chars_of(s.as_str());
            read_u32(&chars)
        },
        None => None,
    }
}

/// Reads how many books were found.
pub fn parse_total_results(html: &str) -> (r: Option<u32>)
    ensures
        opt_number(r) == page_number(TOTAL_PATTERN@, html@),
{
    parse_page_number(TOTAL_PATTERN, html)
}

/// Reads how many pages there are.
pub fn parse_total_pages(html: &str) -> (r: Option<u32>)
    ensures
        opt_number(r) == page_number(PAGES_PATTERN@, html@),
{
    parse_page_number(PAGES_PATTERN, html)
}

/// Puts a page of results together from what was read off it.
pub fn summarize(
    books: Vec<BookInfo>,
    total: Option<u32>,
    pages: Option<u32>,
    page: u32,
) -> (r: SearchResult)
    ensures
        r.books == books,
        r.total == total_books(books@.len(), opt_number(total)),
        r.total_pages == total_pages(opt_number(pages)),
        r.page == page,
{
    let total: u32 = match total {
        Some(n) => n,
        None => (books.len() as u64 % 0x1_0000_0000u64) as u32,
    };
    let total_pages: u32 = match pages {
        Some(n) => if n > 1 {
            n
        } else {
            1
        },
        None => 1,
    };
    SearchResult { books, total, page, total_pages }
}

/// Reads a page of results.
pub fn parse_search_page(html: &str, page: u32) -> (r: SearchResult)
    ensures
        book_views(r.books@) == page_books(html@),
        r.total == total_books(page_books(html@).len(), page_number(TOTAL_PATTERN@, html@)),
        r.total_pages == total_pages(page_number(PAGES_PATTERN@, html@)),
        r.page == page,
{
    let books = parse_books(html);
    assert(book_views(books@).len() == books@.len());
    let total = parse_total_results(html);
    let pages = parse_total_pages(html);
    summarize(books, total, pages, page)
}

/// What a search reports, given the response to its request.
pub fn search_outcome(resp: &mut Response, page: u32) -> (r: Result<SearchResult, String>)
    ensures
        match body_text(old(resp).body) {
            Ok(html) => r matches Ok(found) && book_views(found.books@) == page_books(html)
                && found.total == total_books(
                page_books(html).len(),
                page_number(TOTAL_PATTERN@, html),
            ) && found.total_pages == total_pages(page_number(PAGES_PATTERN@, html))
                && found.page == page,
            Err(e) => r matches Err(m) && m@ == "读取失败: "@ + e,
        },
        *final(resp) == (Response { body: None, ..*old(resp) }),
{
    match resp.text() {
        Ok(html) => Ok(parse_search_page(html.as_str(), page)),
        Err(e) => Err(concat("读取失败: ", e.as_str())),
    }
}

// ---------------------------------------------------------------------------
// Laws
// ---------------------------------------------------------------------------

/// An encoded query holds no blank, and one without blanks is left as it is.
pub proof fn law_query_has_no_blank(s: Seq<char>)
    ensures
        !encoded_query(s).contains(' '),
        !s.contains(' ') ==> encoded_query(s) == s,
    decreases s.len(),
{
    reveal_strlit("%20");
    if s.len() > 0 {
        law_query_has_no_blank(s.drop_last());
        let front = encoded_query(s.drop_last());
        let back = if s.last() == ' ' {
            "%20"@
        } else {
            seq![s.last()]
        };
        assert forall|i: int| 0 <= i < encoded_query(s).len() implies encoded_query(s)[i] != ' ' by {
            if i < front.len() {
                assert(encoded_query(s)[i] == front[i]);
                assert(front.contains(front[i]));
            } else {
                assert(encoded_query(s)[i] == back[i - front.len()]);
            }
        }
        if !s.contains(' ') {
            assert(s[s.len() - 1] != ' ');
            assert forall|i: int| 0 <= i < s.drop_last().len() implies s.drop_last()[i] != ' ' by {
                assert(s.drop_last()[i] == s[i]);
            }
            assert(s.drop_last() + seq![s.last()] =~= s);
        }
    }
}

/// A card as a page writes it: the text before it, the character behind its opening, the
/// attributes, and the content.
pub struct Card {
    pub gap: Seq<char>,
    pub blank: char,
    pub attrs: Seq<char>,
    pub content: Seq<char>,
}

impl Card {
    /// Whether the card is complete, and the text before it opens no other one.
    pub open spec fn wf(self) -> bool {
        &&& find(self.gap, "<z-bookcard"@) is None
        &&& is_whitespace(self.blank)
        &&& !self.attrs.contains('>')
        &&& find(self.content, "</z-bookcard>"@) is None
    }

    /// The card with the text before it.
    pub open spec fn text(self) -> Seq<char> {
        self.gap + "<z-bookcard"@ + seq![self.blank] + self.attrs + ">"@ + self.content
            + "</z-bookcard>"@
    }

    /// The attributes, without white space before them, and the content.
    pub open spec fn parts(self) -> (Seq<char>, Seq<char>) {
        (trim_start(self.attrs, CharClass::Whitespace), self.content)
    }
}

/// A page: some cards and the text behind them.
pub open spec fn page_text(cards: Seq<Card>, tail: Seq<char>) -> Seq<char>
    decreases cards.len(),
{
    if cards.len() == 0 {
        tail
    } else {
        cards[0].text() + page_text(cards.skip(1), tail)
    }
}

/// Whether all cards are complete, and no other one opens between or behind them.
pub open spec fn is_page(cards: Seq<Card>, tail: Seq<char>) -> bool {
    &&& forall|k: int| 0 <= k < cards.len() ==> (#[trigger] cards[k]).wf()
    &&& find(tail, "<z-bookcard"@) is None
}

/// The first card of a page is read off its text.
#[verifier::rlimit(40)]
proof fn lemma_first_card(card: Card, rest: Seq<char>)
    requires
        card.wf(),
    ensures
        page_cards(card.text() + rest) == seq![card.parts()] + page_cards(rest),
{
    reveal_strlit("<z-bookcard");
    reveal_strlit("</z-bookcard>");
    reveal_strlit(">");
    let open = "<z-bookcard"@;
    let close = "</z-bookcard>"@;
    let gt = ">"@;
    lemma_unbordered(open);
    lemma_unbordered(close);
    lemma_unbordered(gt);
    assert(gt =~= seq!['>']);
    let class = CharClass::Whitespace;
    let after = card.content + close + rest;
    let behind = seq![card.blank] + card.attrs + (gt + after);
    let html = card.text() + rest;
    assert(html =~= card.gap + open + behind);
    lemma_find_behind(card.gap, open, behind);
    assert(html.skip(card.gap.len() as int + open.len()) =~= behind);
    // The attributes.
    let lead = seq![card.blank] + card.attrs;
    let attrs = trim_start(card.attrs, class);
    assert(lead.skip(1) =~= card.attrs);
    assert(trim_start(lead, class) == attrs);
    lemma_trim_start_stops(lead, gt + after, class);
    let inner = trim_start(behind, class);
    assert(inner =~= attrs + gt + after);
    lemma_trim_start_is_suffix(card.attrs, class);
    assert(inner.len() < behind.len());
    assert forall|k: int| 0 <= k < attrs.len() implies attrs[k] != '>' by {
        assert(attrs[k] == card.attrs[k + card.attrs.len() - attrs.len()]);
    }
    lemma_find_single(attrs, '>');
    lemma_find_behind(attrs, gt, after);
    assert(inner.take(attrs.len() as int) =~= attrs);
    assert(inner.skip(attrs.len() as int + 1) =~= after);
    // The content.
    lemma_find_behind(card.content, close, rest);
    assert(after.take(card.content.len() as int) =~= card.content);
    assert(after.skip(card.content.len() as int + close.len()) =~= rest);
    assert(card_behind(behind) == Some((attrs, card.content, rest)));
}

/// A page shows one book for each of its cards, in their order and each from its own card
/// alone. A page without cards shows none.
pub proof fn law_page_shows_its_cards(cards: Seq<Card>, tail: Seq<char>)
    requires
        is_page(cards, tail),
    ensures
        page_cards(page_text(cards, tail)) == cards.map_values(|c: Card| c.parts()),
        page_books(page_text(cards, tail)) == cards.map_values(|c: Card| book_shown(c.parts())),
    decreases cards.len(),
{
    let shown = cards.map_values(|c: Card| c.parts());
    if cards.len() > 0 {
        let others = cards.skip(1);
        assert forall|k: int| 0 <= k < others.len() implies (#[trigger] others[k]).wf() by {
            assert(others[k] == cards[k + 1]);
        }
        law_page_shows_its_cards(others, tail);
        assert(cards[0].wf());
        lemma_first_card(cards[0], page_text(others, tail));
        assert(seq![cards[0].parts()] + others.map_values(|c: Card| c.parts()) =~= shown);
    } else {
        assert(page_cards(tail) =~= shown);
    }
    assert(page_books(page_text(cards, tail)) =~= cards.map_values(
        |c: Card| book_shown(c.parts()),
    ));
}

/// Two pages, of which the second begins with a card, show together what each of them shows.
pub proof fn law_joined_pages_show_joined_books(
    a: Seq<Card>,
    tail_a: Seq<char>,
    b: Seq<Card>,
    tail_b: Seq<char>,
)
    requires
        is_page(a, tail_a),
        is_page(b, tail_b),
        b.len() > 0,
        b[0].gap.len() == 0,
    ensures
        page_books(page_text(a, tail_a) + page_text(b, tail_b)) == page_books(page_text(a, tail_a))
            + page_books(page_text(b, tail_b)),
        page_books(page_text(a, tail_a)).len() == a.len(),
        page_books(page_text(b, tail_b)).len() == b.len(),
{
    let first = Card { gap: tail_a, ..b[0] };
    let both = a + seq![first] + b.skip(1);
    assert(b[0].wf());
    assert forall|k: int| 0 <= k < both.len() implies (#[trigger] both[k]).wf() by {
        if k < a.len() {
            assert(both[k] == a[k]);
        } else if k > a.len() {
            assert(both[k] == b[k - a.len()]);
        }
    }
    law_page_shows_its_cards(a, tail_a);
    law_page_shows_its_cards(b, tail_b);
    law_page_shows_its_cards(both, tail_b);
    lemma_joined_text(a, tail_a, b, tail_b);
    assert(page_books(page_text(a, tail_a) + page_text(b, tail_b)) =~= page_books(
        page_text(a, tail_a),
    ) + page_books(page_text(b, tail_b)));
}

/// Two pages one behind the other are a page, on which the text at the end of the first
/// stands before the first card of the second.
proof fn lemma_joined_text(a: Seq<Card>, tail_a: Seq<char>, b: Seq<Card>, tail_b: Seq<char>)
    requires
        b.len() > 0,
        b[0].gap.len() == 0,
    ensures
        page_text(a, tail_a) + page_text(b, tail_b) == page_text(
            a + seq![Card { gap: tail_a, ..b[0] }] + b.skip(1),
            tail_b,
        ),
    decreases a.len(),
{
    let first = Card { gap: tail_a, ..b[0] };
    let both = a + seq![first] + b.skip(1);
    if a.len() == 0 {
        assert(both.skip(1) =~= b.skip(1));
        assert(tail_a + b[0].text() =~= first.text());
        assert(tail_a + (b[0].text() + page_text(b.skip(1), tail_b)) =~= first.text() + page_text(
            b.skip(1),
            tail_b,
        ));
    } else {
        lemma_joined_text(a.skip(1), tail_a, b, tail_b);
        assert(both.skip(1) =~= a.skip(1) + seq![first] + b.skip(1));
        assert(page_text(a, tail_a) + page_text(b, tail_b) =~= a[0].text() + (page_text(
            a.skip(1),
            tail_a,
        ) + page_text(b, tail_b)));
    }
}

/// A search or a login carries the challenge cookies in force, each exactly once, and the
/// kind of site.
pub proof fn law_plain_cookie_carries_the_challenge(jar: CookiesView)
    requires
        is_clean_jar(jar),
    ensures
        pick_segments(split(plain_cookie(jar), "; "@), true) == jar.segments(),
        split(plain_cookie(jar), "; "@) == split(jar.text(), "; "@).push(
            "selectedSiteMode=books"@,
        ),
{
    let others = seq!["selectedSiteMode=books"@];
    lemma_site_mode();
    law_cookie_carries_the_challenge(jar, others);
    assert(seq![jar.text()] + others =~= seq![jar.text(), "selectedSiteMode=books"@]);
    assert(split(jar.text(), "; "@) + others =~= split(jar.text(), "; "@).push(
        "selectedSiteMode=books"@,
    ));
}

/// A text without ampersands is left as it is.
pub proof fn law_unescape_leaves_plain_text(s: Seq<char>)
    requires
        !s.contains('&'),
    ensures
        unescaped(s) == s,
{
    reveal_strlit("&amp;");
    reveal_strlit("&lt;");
    reveal_strlit("&gt;");
    reveal_strlit("&quot;");
    reveal_strlit("&#39;");
    reveal_strlit("&#x27;");
    reveal_strlit("&nbsp;");
    lemma_no_reference(s, "&amp;"@);
    lemma_no_reference(s, "&lt;"@);
    lemma_no_reference(s, "&gt;"@);
    lemma_no_reference(s, "&quot;"@);
    lemma_no_reference(s, "&#39;"@);
    lemma_no_reference(s, "&#x27;"@);
    lemma_no_reference(s, "&nbsp;"@);
}

/// A text without ampersands holds no character reference.
proof fn lemma_no_reference(s: Seq<char>, reference: Seq<char>)
    requires
        !s.contains('&'),
        reference.len() > 0,
        reference[0] == '&',
    ensures
        find(s, reference) is None,
{
    assert forall|j: int| !occurs_at(s, reference, j) by {
        if occurs_at(s, reference, j) {
            assert(s.subrange(j, j + reference.len())[0] == s[j]);
        }
    }
    lemma_find_none(s, reference);
}

/// A query is written with `%20` for each blank, and with every other character as it is.
pub proof fn law_query_is_written_out(x: Seq<char>, c: char)
    ensures
        encoded_query(x + seq![' ']) == encoded_query(x) + "%20"@,
        c != ' ' ==> encoded_query(x + seq![c]) == encoded_query(x) + seq![c],
        encoded_query(seq![]) == Seq::<char>::empty(),
{
    assert((x + seq![' ']).drop_last() =~= x);
    assert((x + seq![c]).drop_last() =~= x);
}

/// The page of a search is asked for under the query and its own number; the links of the
/// site are its paths behind its name.
pub proof fn law_search_url(query: Seq<char>, page: u32, path: Seq<char>)
    requires
        !query.contains(' '),
    ensures
        search_url(query, page) == "https://z-library.sk/s/"@ + query + "?page="@ + decimal(
            page as nat,
        ),
        site_url(path) == "https://z-library.sk"@ + path,
{
    reveal_strlit("https://");
    reveal_strlit("z-library.sk");
    reveal_strlit("/s/");
    reveal_strlit("https://z-library.sk/s/");
    reveal_strlit("https://z-library.sk");
    law_query_has_no_blank(query);
    assert("https://z-library.sk/s/"@ =~= "https://"@ + ORIGIN_DOMAIN@ + "/s/"@);
    assert("https://z-library.sk"@ =~= "https://"@ + ORIGIN_DOMAIN@);
}

/// A reference that stands alone between texts without ampersands is not another one.
proof fn lemma_other_reference(
    x: Seq<char>,
    reference: Seq<char>,
    y: Seq<char>,
    pat: Seq<char>,
    m: int,
)
    requires
        !x.contains('&'),
        !y.contains('&'),
        forall|i: int| 0 < i < reference.len() ==> #[trigger] reference[i] != '&',
        0 <= m < reference.len(),
        m < pat.len(),
        pat[m] != reference[m],
        pat[0] == '&',
    ensures
        find(x + reference + y, pat) is None,
{
    let s = x + reference + y;
    let n = x.len() as int;
    assert forall|j: int| !occurs_at(s, pat, j) by {
        if occurs_at(s, pat, j) {
            assert(s.subrange(j, j + pat.len())[0] == s[j]);
            if j < n {
                assert(x[j] == '&');
            } else if j < n + reference.len() {
                assert(reference[j - n] == '&');
                assert(j == n);
                assert(s.subrange(j, j + pat.len())[m] == s[n + m]);
                assert(s[n + m] == reference[m]);
            } else {
                assert(y[j - n - reference.len()] == '&');
            }
        }
    }
    lemma_find_none(s, pat);
}

/// A reference is exchanged where it stands alone.
proof fn lemma_reference_is_exchanged(
    x: Seq<char>,
    reference: Seq<char>,
    y: Seq<char>,
    to: Seq<char>,
)
    requires
        !x.contains('&'),
        !y.contains('&'),
        reference.len() > 0,
        reference[0] == '&',
        forall|i: int| 0 < i < reference.len() ==> #[trigger] reference[i] != '&',
    ensures
        replace(x + reference + y, reference, to) == x + to + y,
{
    lemma_unbordered(reference);
    law_replace_of_append(x, reference, y, to);
    lemma_no_reference(x, reference);
    lemma_no_reference(y, reference);
}

/// An ampersand with no semicolon behind it begins no reference.
proof fn lemma_lone_ampersand(x: Seq<char>, y: Seq<char>, pat: Seq<char>)
    requires
        !x.contains('&'),
        !y.contains('&'),
        !y.contains(';'),
        pat.len() > 1,
        pat[0] == '&',
        pat.last() == ';',
    ensures
        find(x + seq!['&'] + y, pat) is None,
{
    let s = x + seq!['&'] + y;
    let n = x.len() as int;
    assert forall|j: int| !occurs_at(s, pat, j) by {
        if occurs_at(s, pat, j) {
            let k = pat.len() - 1;
            assert(s.subrange(j, j + pat.len())[0] == s[j]);
            assert(s.subrange(j, j + pat.len())[k] == s[j + k]);
            if j < n {
                assert(x[j] == '&');
            } else if j == n {
                assert(y[j + k - n - 1] == ';');
            } else {
                assert(y[j - n - 1] == '&');
            }
        }
    }
    lemma_find_none(s, pat);
}

/// Each character reference stands for its character, and the text before and behind it
/// stays as it is.
pub proof fn law_references_are_resolved(x: Seq<char>, y: Seq<char>)
    requires
        !x.contains('&'),
        !y.contains('&'),
    ensures
        !y.contains(';') ==> unescaped(x + "&amp;"@ + y) == x + "&"@ + y,
        unescaped(x + "&lt;"@ + y) == x + "<"@ + y,
        unescaped(x + "&gt;"@ + y) == x + ">"@ + y,
        unescaped(x + "&quot;"@ + y) == x + "\""@ + y,
        unescaped(x + "&#39;"@ + y) == x + "'"@ + y,
        unescaped(x + "&#x27;"@ + y) == x + "'"@ + y,
        unescaped(x + "&nbsp;"@ + y) == x + " "@ + y,
{
    reveal_strlit("&amp;");
    reveal_strlit("&lt;");
    reveal_strlit("&gt;");
    reveal_strlit("&quot;");
    reveal_strlit("&#39;");
    reveal_strlit("&#x27;");
    reveal_strlit("&nbsp;");
    reveal_strlit("&");
    reveal_strlit("<");
    reveal_strlit(">");
    reveal_strlit("\"");
    reveal_strlit("'");
    reveal_strlit(" ");
    lemma_reference_is_exchanged(x, "&amp;"@, y, "&"@);
    if !y.contains(';') {
        assert("&"@ =~= seq!['&']);
        lemma_lone_ampersand(x, y, "&lt;"@);
        lemma_lone_ampersand(x, y, "&gt;"@);
        lemma_lone_ampersand(x, y, "&quot;"@);
        lemma_lone_ampersand(x, y, "&#39;"@);
        lemma_lone_ampersand(x, y, "&#x27;"@);
        lemma_lone_ampersand(x, y, "&nbsp;"@);
    }
    lemma_one_reference_lt(x, y);
    lemma_one_reference_gt(x, y);
    lemma_one_reference_quot(x, y);
    lemma_one_reference_apos(x, y);
    lemma_one_reference_hex_apos(x, y);
    lemma_one_reference_nbsp(x, y);
}

/// `&lt;` is resolved.
proof fn lemma_one_reference_lt(x: Seq<char>, y: Seq<char>)
    requires
        !x.contains('&'),
        !y.contains('&'),
    ensures
        unescaped(x + "&lt;"@ + y) == x + "<"@ + y,
{
    reveal_strlit("&amp;");
    reveal_strlit("&lt;");
    reveal_strlit("&gt;");
    reveal_strlit("&quot;");
    reveal_strlit("&#39;");
    reveal_strlit("&#x27;");
    reveal_strlit("&nbsp;");
    reveal_strlit("<");
    lemma_other_reference(x, "&lt;"@, y, "&amp;"@, 1);
    lemma_reference_is_exchanged(x, "&lt;"@, y, "<"@);
    let plain = x + "<"@ + y;
    assert(!plain.contains('&')) by {
        assert forall|k: int| 0 <= k < plain.len() implies plain[k] != '&' by {
            if k < x.len() {
                assert(x.contains(x[k]));
            } else if k > x.len() {
                assert(y.contains(y[k - x.len() - 1]));
            }
        }
    }
    lemma_no_reference(plain, "&gt;"@);
    lemma_no_reference(plain, "&quot;"@);
    lemma_no_reference(plain, "&#39;"@);
    lemma_no_reference(plain, "&#x27;"@);
    lemma_no_reference(plain, "&nbsp;"@);
}

/// `&gt;` is resolved.
proof fn lemma_one_reference_gt(x: Seq<char>, y: Seq<char>)
    requires
        !x.contains('&'),
        !y.contains('&'),
    ensures
        unescaped(x + "&gt;"@ + y) == x + ">"@ + y,
{
    reveal_strlit("&amp;");
    reveal_strlit("&lt;");
    reveal_strlit("&gt;");
    reveal_strlit("&quot;");
    reveal_strlit("&#39;");
    reveal_strlit("&#x27;");
    reveal_strlit("&nbsp;");
    reveal_strlit(">");
    lemma_other_reference(x, "&gt;"@, y, "&amp;"@, 1);
    lemma_other_reference(x, "&gt;"@, y, "&lt;"@, 1);
    lemma_reference_is_exchanged(x, "&gt;"@, y, ">"@);
    let plain = x + ">"@ + y;
    assert(!plain.contains('&')) by {
        assert forall|k: int| 0 <= k < plain.len() implies plain[k] != '&' by {
            if k < x.len() {
                assert(x.contains(x[k]));
            } else if k > x.len() {
                assert(y.contains(y[k - x.len() - 1]));
            }
        }
    }
    lemma_no_reference(plain, "&quot;"@);
    lemma_no_reference(plain, "&#39;"@);
    lemma_no_reference(plain, "&#x27;"@);
    lemma_no_reference(plain, "&nbsp;"@);
}

/// `&quot;` is resolved.
proof fn lemma_one_reference_quot(x: Seq<char>, y: Seq<char>)
    requires
        !x.contains('&'),
        !y.contains('&'),
    ensures
        unescaped(x + "&quot;"@ + y) == x + "\""@ + y,
{
    reveal_strlit("&amp;");
    reveal_strlit("&lt;");
    reveal_strlit("&gt;");
    reveal_strlit("&quot;");
    reveal_strlit("&#39;");
    reveal_strlit("&#x27;");
    reveal_strlit("&nbsp;");
    reveal_strlit("\"");
    lemma_other_reference(x, "&quot;"@, y, "&amp;"@, 1);
    lemma_other_reference(x, "&quot;"@, y, "&lt;"@, 1);
    lemma_other_reference(x, "&quot;"@, y, "&gt;"@, 1);
    lemma_reference_is_exchanged(x, "&quot;"@, y, "\""@);
    let plain = x + "\""@ + y;
    assert(!plain.contains('&')) by {
        assert forall|k: int| 0 <= k < plain.len() implies plain[k] != '&' by {
            if k < x.len() {
                assert(x.contains(x[k]));
            } else if k > x.len() {
                assert(y.contains(y[k - x.len() - 1]));
            }
        }
    }
    lemma_no_reference(plain, "&#39;"@);
    lemma_no_reference(plain, "&#x27;"@);
    lemma_no_reference(plain, "&nbsp;"@);
}

/// `&#39;` is resolved.
proof fn lemma_one_reference_apos(x: Seq<char>, y: Seq<char>)
    requires
        !x.contains('&'),
        !y.contains('&'),
    ensures
        unescaped(x + "&#39;"@ + y) == x + "'"@ + y,
{
    reveal_strlit("&amp;");
    reveal_strlit("&lt;");
    reveal_strlit("&gt;");
    reveal_strlit("&quot;");
    reveal_strlit("&#39;");
    reveal_strlit("&#x27;");
    reveal_strlit("&nbsp;");
    reveal_strlit("'");
    lemma_other_reference(x, "&#39;"@, y, "&amp;"@, 1);
    lemma_other_reference(x, "&#39;"@, y, "&lt;"@, 1);
    lemma_other_reference(x, "&#39;"@, y, "&gt;"@, 1);
    lemma_other_reference(x, "&#39;"@, y, "&quot;"@, 1);
    lemma_reference_is_exchanged(x, "&#39;"@, y, "'"@);
    let plain = x + "'"@ + y;
    assert(!plain.contains('&')) by {
        assert forall|k: int| 0 <= k < plain.len() implies plain[k] != '&' by {
            if k < x.len() {
                assert(x.contains(x[k]));
            } else if k > x.len() {
                assert(y.contains(y[k - x.len() - 1]));
            }
        }
    }
    lemma_no_reference(plain, "&#x27;"@);
    lemma_no_reference(plain, "&nbsp;"@);
}

/// `&#x27;` is resolved.
proof fn lemma_one_reference_hex_apos(x: Seq<char>, y: Seq<char>)
    requires
        !x.contains('&'),
        !y.contains('&'),
    ensures
        unescaped(x + "&#x27;"@ + y) == x + "'"@ + y,
{
    reveal_strlit("&amp;");
    reveal_strlit("&lt;");
    reveal_strlit("&gt;");
    reveal_strlit("&quot;");
    reveal_strlit("&#39;");
    reveal_strlit("&#x27;");
    reveal_strlit("&nbsp;");
    reveal_strlit("'");
    lemma_other_reference(x, "&#x27;"@, y, "&amp;"@, 1);
    lemma_other_reference(x, "&#x27;"@, y, "&lt;"@, 1);
    lemma_other_reference(x, "&#x27;"@, y, "&gt;"@, 1);
    lemma_other_reference(x, "&#x27;"@, y, "&quot;"@, 1);
    lemma_other_reference(x, "&#x27;"@, y, "&#39;"@, 2);
    lemma_reference_is_exchanged(x, "&#x27;"@, y, "'"@);
    let plain = x + "'"@ + y;
    assert(!plain.contains('&')) by {
        assert forall|k: int| 0 <= k < plain.len() implies plain[k] != '&' by {
            if k < x.len() {
                assert(x.contains(x[k]));
            } else if k > x.len() {
                assert(y.contains(y[k - x.len() - 1]));
            }
        }
    }
    lemma_no_reference(plain, "&nbsp;"@);
}

/// `&nbsp;` is resolved.
proof fn lemma_one_reference_nbsp(x: Seq<char>, y: Seq<char>)
    requires
        !x.contains('&'),
        !y.contains('&'),
    ensures
        unescaped(x + "&nbsp;"@ + y) == x + " "@ + y,
{
    reveal_strlit("&amp;");
    reveal_strlit("&lt;");
    reveal_strlit("&gt;");
    reveal_strlit("&quot;");
    reveal_strlit("&#39;");
    reveal_strlit("&#x27;");
    reveal_strlit("&nbsp;");
    reveal_strlit(" ");
    lemma_other_reference(x, "&nbsp;"@, y, "&amp;"@, 1);
    lemma_other_reference(x, "&nbsp;"@, y, "&lt;"@, 1);
    lemma_other_reference(x, "&nbsp;"@, y, "&gt;"@, 1);
    lemma_other_reference(x, "&nbsp;"@, y, "&quot;"@, 1);
    lemma_other_reference(x, "&nbsp;"@, y, "&#39;"@, 1);
    lemma_other_reference(x, "&nbsp;"@, y, "&#x27;"@, 1);
    lemma_reference_is_exchanged(x, "&nbsp;"@, y, " "@);
    let plain = x + " "@ + y;
    assert(!plain.contains('&')) by {
        assert forall|k: int| 0 <= k < plain.len() implies plain[k] != '&' by {
            if k < x.len() {
                assert(x.contains(x[k]));
            } else if k > x.len() {
                assert(y.contains(y[k - x.len() - 1]));
            }
        }
    }
}


/// Each attribute sets the field that it names, with its whole value, and no other; links
/// are taken as paths of the site. Attributes of other names set nothing.
#[verifier::rlimit(40)]
pub proof fn law_attributes_set_their_fields(book: BookView, value: Seq<char>, name: Seq<char>)
    ensures
        with_attribute(book, "id"@, value) == (BookView { id: value, ..book }),
        with_attribute(book, "isbn"@, value) == (BookView { isbn: value, ..book }),
        with_attribute(book, "href"@, value) == (BookView {
            detail_url: "https://z-library.sk"@ + value,
            ..book
        }),
        with_attribute(book, "download"@, value) == (BookView {
            download_url: "https://z-library.sk"@ + value,
            ..book
        }),
        with_attribute(book, "publisher"@, value) == (BookView { publisher: value, ..book }),
        with_attribute(book, "language"@, value) == (BookView { language: value, ..book }),
        with_attribute(book, "year"@, value) == (BookView { year: value, ..book }),
        with_attribute(book, "extension"@, value) == (BookView { extension: value, ..book }),
        with_attribute(book, "filesize"@, value) == (BookView { file_size: value, ..book }),
        with_attribute(book, "rating"@, value) == (BookView { rating: value, ..book }),
        with_attribute(book, "quality"@, value) == (BookView { quality: value, ..book }),
        with_attribute(book, name, value).title == book.title,
        with_attribute(book, name, value).author == book.author,
        with_attribute(book, name, value).image_url == book.image_url,
        with_attribute(book, name, value) == book || name == "id"@ || name == "isbn"@ || name
            == "href"@ || name == "download"@ || name == "publisher"@ || name == "language"@ || name
            == "year"@ || name == "extension"@ || name == "filesize"@ || name == "rating"@ || name
            == "quality"@,
{
    reveal_strlit("id");
    reveal_strlit("isbn");
    reveal_strlit("href");
    reveal_strlit("download");
    reveal_strlit("publisher");
    reveal_strlit("language");
    reveal_strlit("year");
    reveal_strlit("extension");
    reveal_strlit("filesize");
    reveal_strlit("rating");
    reveal_strlit("quality");
    law_search_url(seq![], 0, value);
    assert("isbn"@[0] != "href"@[0]);
    assert("isbn"@[0] != "year"@[0]);
    assert("href"@[0] != "year"@[0]);
    assert("download"@[0] != "language"@[0]);
    assert("download"@[0] != "filesize"@[0]);
    assert("language"@[0] != "filesize"@[0]);
    assert("publisher"@[0] != "extension"@[0]);
    assert("rating"@[0] != "quality"@[0]);
    assert("rating"@.len() == 6 && "quality"@.len() == 7);
    assert("publisher"@.len() == 9 && "extension"@.len() == 9);
    assert("download"@.len() == 8 && "language"@.len() == 8 && "filesize"@.len() == 8);
    assert("isbn"@.len() == 4 && "href"@.len() == 4 && "year"@.len() == 4);
    assert("id"@.len() == 2);
}

/// Attributes are read one after the other, all of them, so that the last one of a name
/// counts.
pub proof fn law_attributes_are_read_in_order(
    book: BookView,
    attributes: Seq<(Seq<char>, Seq<char>)>,
    name: Seq<char>,
    value: Seq<char>,
)
    ensures
        with_attributes(book, attributes.push((name, value))) == with_attribute(
            with_attributes(book, attributes),
            name,
            value,
        ),
        with_attributes(book, seq![]) == book,
{
    assert(attributes.push((name, value)).drop_last() =~= attributes);
}

/// Attributes do not touch the title, the author and the cover.
proof fn lemma_attributes_leave_texts(book: BookView, attributes: Seq<(Seq<char>, Seq<char>)>)
    ensures
        with_attributes(book, attributes).title == book.title,
        with_attributes(book, attributes).author == book.author,
        with_attributes(book, attributes).image_url == book.image_url,
    decreases attributes.len(),
{
    if attributes.len() > 0 {
        lemma_attributes_leave_texts(book, attributes.drop_last());
    }
}

/// The title and the author of a book are the whole texts of its card with their references
/// resolved, and the texts themselves where they hold no ampersand; the cover is the address
/// as it stands there. What the card does not show is empty. All other fields come from the
/// attributes.
pub proof fn law_card_texts_are_kept_whole(
    attributes: Seq<(Seq<char>, Seq<char>)>,
    title: Seq<char>,
    author: Seq<char>,
    image: Seq<char>,
)
    ensures
        ({
            let book = with_attributes(blank_book(), attributes);
            let full = card_book(attributes, Some(title), Some(author), Some(image));
            let bare = card_book(attributes, None, None, None);
            let none: Seq<char> = seq![];
            &&& full == (BookView {
                title: unescaped(title),
                author: unescaped(author),
                image_url: image,
                ..book
            })
            &&& !title.contains('&') ==> full.title == title
            &&& !author.contains('&') ==> full.author == author
            &&& bare == (BookView { title: none, author: none, image_url: none, ..book })
        }),
{
    lemma_attributes_leave_texts(blank_book(), attributes);
    if !title.contains('&') {
        law_unescape_leaves_plain_text(title);
    }
    if !author.contains('&') {
        law_unescape_leaves_plain_text(author);
    }
}

/// The book of a card has the title, the author and the cover that stand in its content, and
/// the fields that its attributes set.
pub proof fn law_card_shows_its_book(
    attrs: Seq<char>,
    content: Seq<char>,
    title: Seq<char>,
    author: Seq<char>,
    image: Seq<char>,
)
    requires
        first_group(TITLE_PATTERN@, content) == Some(title),
        first_group(AUTHOR_PATTERN@, content) == Some(author),
        first_group(IMAGE_PATTERN@, content) == Some(image),
        !title.contains('&'),
        !author.contains('&'),
    ensures
        book_shown((attrs, content)) == (BookView {
            title,
            author,
            image_url: image,
            ..with_attributes(blank_book(), group_pairs(ATTRIBUTE_PATTERN@, attrs))
        }),
{
    law_card_texts_are_kept_whole(group_pairs(ATTRIBUTE_PATTERN@, attrs), title, author, image);
}

/// A number that a page shows is that number, where it fits; none is made up.
pub proof fn law_page_numbers_are_read(pattern: Seq<char>, html: Seq<char>, n: nat)
    ensures
        first_group(pattern, html) == Some(decimal(n)) ==> page_number(pattern, html) == (if n
            <= 0xffff_ffff {
            Some(n)
        } else {
            None
        }),
        first_group(pattern, html) is None ==> page_number(pattern, html) is None,
{
    law_decimal_limits(n, u32::MAX as nat);
}

/// The total is the number that the page shows, else the number of its books; the number of
/// pages is what the page shows, but never zero.
pub proof fn law_totals(shown: nat, n: nat)
    requires
        shown < 0x1_0000_0000,
    ensures
        total_books(shown, Some(n)) == n,
        total_books(shown, None) == shown,
        n > 0 ==> total_pages(Some(n)) == n,
        total_pages(Some(0)) == 1,
        total_pages(None) == 1,
{
}

/// Where a page shows its totals, its cards, and what stands on a card.
pub proof fn law_where_a_page_is_read()
    ensures
        TOTAL_PATTERN@ == r#"data-type="book"[^>]*>[^<]*Books[^(]*\(([0-9]+)\)"#@,
        PAGES_PATTERN@ == r#"pagesTotal:\s*(\d+)"#@,
        CARD_PATTERN@ == r#"<z-bookcard\s+(?P<attrs>[^>]*?)>(?P<content>[\s\S]*?)</z-bookcard>"#@,
        ATTRIBUTE_PATTERN@ == r#"(\w+)\s*=\s*"([^"]*)""#@,
        TITLE_PATTERN@ == r#"<div\s+slot="title">([\s\S]*?)</div>"#@,
        AUTHOR_PATTERN@ == r#"<div\s+slot="author">([\s\S]*?)</div>"#@,
        IMAGE_PATTERN@ == r#"<img\s+[^>]*?data-src="([^"]*)""#@,
{
}

} // verus!
