//! What the exported functions decide: which account a caller names, and what they answer.
//!
//! Every answer is a JSON object with the member `ok`. A failure has the member `error`
//! beside it, a success the members of its result.

use vstd::prelude::*;

use crate::models::account::LoginResult;
use crate::models::book::{blank_book, BookInfo, BookView, SearchResult};
use crate::text::{pair_view, pair_views, text_pair};

verus! {

// ---------------------------------------------------------------------------
// JSON objects
// ---------------------------------------------------------------------------

/// A value in an answer.
#[derive(Debug)]
pub enum Field {
    Flag(bool),
    Count(u32),
    Text(String),
    /// A list of objects whose members are texts.
    Objects(Vec<Vec<(String, String)>>),
}

/// The model of a value in an answer.
pub enum FieldView {
    Flag(bool),
    Count(u32),
    Text(Seq<char>),
    Objects(Seq<Seq<(Seq<char>, Seq<char>)>>),
}

/// The models of several objects.
pub open spec fn object_views(v: Seq<Vec<(String, String)>>) -> Seq<Seq<(Seq<char>, Seq<char>)>> {
    v.map_values(|o: Vec<(String, String)>| pair_views(o@))
}

impl View for Field {
    type V = FieldView;

    open spec fn view(&self) -> FieldView {
        match self {
            Field::Flag(b) => FieldView::Flag(*b),
            Field::Count(n) => FieldView::Count(*n),
            Field::Text(s) => FieldView::Text(s@),
            Field::Objects(list) => FieldView::Objects(object_views(list@)),
        }
    }
}

/// The models of several members.
pub open spec fn member_views(v: Seq<(String, Field)>) -> Seq<(Seq<char>, FieldView)> {
    v.map_values(|m: (String, Field)| (m.0@, m.1@))
}

/// The text of a JSON object with the given members.
pub uninterp spec fn json_object(members: Seq<(Seq<char>, FieldView)>) -> Seq<char>;

/// `serde_json::Value` as it is collected from members and written by `to_string`.
#[verifier::external_body]
fn write_object(members: &Vec<(String, Field)>) -> (r: String)
    ensures
        r@ == json_object(member_views(members@)),
{
    let object: serde_json::Value = members.iter().map(
        |(k, f)|
            (k.clone(), match f {
                Field::Flag(b) => serde_json::Value::from(*b),
                Field::Count(n) => serde_json::Value::from(*n),
                Field::Text(s) => serde_json::Value::from(s.as_str()),
                Field::Objects(list) => list.iter().map(
                    |o| o.iter().cloned().collect::<serde_json::Value>(),
                ).collect(),
            }),
    ).collect();
    object.to_string()
}

/// A member with a text.
fn text_member(name: &str, value: &str) -> (r: (String, Field))
    ensures
        r.0@ == name@,
        r.1@ == FieldView::Text(value@),
{
    (name.to_string(), Field::Text(value.to_string()))
}

/// The member that tells success from failure.
fn ok_member(ok: bool) -> (r: (String, Field))
    ensures
        r.0@ == "ok"@,
        r.1@ == FieldView::Flag(ok),
{
    ("ok".to_string(), Field::Flag(ok))
}

// ---------------------------------------------------------------------------
// Arguments
// ---------------------------------------------------------------------------

/// The account of a caller, who names one only with both its id and its key.
pub fn select_account<'a>(
    user_id: Option<&'a str>,
    user_key: Option<&'a str>,
) -> (r: Option<(&'a str, &'a str)>)
    ensures
        pair_view(r) == (match (user_id, user_key) {
            (Some(u), Some(k)) => Some((u@, k@)),
            _ => None,
        }),
{
    match (user_id, user_key) {
        (Some(u), Some(k)) => Some((u, k)),
        _ => None,
    }
}

/// A book of which only the download link is known.
pub fn requested_book(download_url: &str) -> (r: BookInfo)
    ensures
        r@ == (BookView { download_url: download_url@, ..blank_book() }),
{
    let mut book = BookInfo::default();
    book.download_url = download_url.to_string();
    book
}

// ---------------------------------------------------------------------------
// Answers
// ---------------------------------------------------------------------------

/// The members of a failure.
pub open spec fn failure_members(error: Seq<char>) -> Seq<(Seq<char>, FieldView)> {
    seq![("ok"@, FieldView::Flag(false)), ("error"@, FieldView::Text(error))]
}

/// The members of a book.
pub open spec fn book_members(b: BookView) -> Seq<(Seq<char>, Seq<char>)> {
    seq![
        ("id"@, b.id),
        ("isbn"@, b.isbn),
        ("title"@, b.title),
        ("author"@, b.author),
        ("publisher"@, b.publisher),
        ("language"@, b.language),
        ("year"@, b.year),
        ("extension"@, b.extension),
        ("file_size"@, b.file_size),
        ("rating"@, b.rating),
        ("quality"@, b.quality),
        ("image_url"@, b.image_url),
        ("detail_url"@, b.detail_url),
        ("download_url"@, b.download_url),
    ]
}

/// The members of the answer to a search.
pub open spec fn search_members(found: SearchResult) -> Seq<(Seq<char>, FieldView)> {
    seq![
        ("ok"@, FieldView::Flag(true)),
        ("total"@, FieldView::Count(found.total)),
        ("total_pages"@, FieldView::Count(found.total_pages)),
        ("page"@, FieldView::Count(found.page)),
        ("books"@, FieldView::Objects(found.books@.map_values(|b: BookInfo| book_members(b@)))),
    ]
}

/// The members of the answer to a login. The password is not among them.
pub open spec fn login_members(account: LoginResult) -> Seq<(Seq<char>, FieldView)> {
    seq![
        ("ok"@, FieldView::Flag(true)),
        ("remix_userid"@, FieldView::Text(account.remix_userid@)),
        ("remix_userkey"@, FieldView::Text(account.remix_userkey@)),
        ("username"@, FieldView::Text(account.username@)),
        ("email"@, FieldView::Text(account.email@)),
    ]
}

/// The members of the answer to a download.
pub open spec fn resolved_members(url: Seq<char>) -> Seq<(Seq<char>, FieldView)> {
    seq![("ok"@, FieldView::Flag(true)), ("url"@, FieldView::Text(url))]
}

/// The fields of a failure.
pub fn failure_fields(error: &str) -> (r: Vec<(String, Field)>)
    ensures
        member_views(r@) == failure_members(error@),
{
    let mut list: Vec<(String, Field)> = Vec::new();
    list.push(ok_member(false));
    list.push(text_member("error", error));
    assert(member_views(list@) =~= failure_members(error@));
    list
}

/// The fields of a book.
pub fn book_fields(book: &BookInfo) -> (r: Vec<(String, String)>)
    ensures
        pair_views(r@) == book_members(book@),
{
    let mut list: Vec<(String, String)> = Vec::new();
    list.push(text_pair("id", book.id.as_str()));
    list.push(text_pair("isbn", book.isbn.as_str()));
    list.push(text_pair("title", book.title.as_str()));
    list.push(text_pair("author", book.author.as_str()));
    list.push(text_pair("publisher", book.publisher.as_str()));
    list.push(text_pair("language", book.language.as_str()));
    list.push(text_pair("year", book.year.as_str()));
    list.push(text_pair("extension", book.extension.as_str()));
    list.push(text_pair("file_size", book.file_size.as_str()));
    list.push(text_pair("rating", book.rating.as_str()));
    list.push(text_pair("quality", book.quality.as_str()));
    list.push(text_pair("image_url", book.image_url.as_str()));
    list.push(text_pair("detail_url", book.detail_url.as_str()));
    list.push(text_pair("download_url", book.download_url.as_str()));
    assert(pair_views(list@) =~= book_members(book@));
    list
}

/// The fields of the answer to a search.
pub fn search_fields(found: &SearchResult) -> (r: Vec<(String, Field)>)
    ensures
        member_views(r@) == search_members(*found),
{
    let mut books: Vec<Vec<(String, String)>> = Vec::new();
    let ghost all = found.books@.map_values(|b: BookInfo| book_members(b@));
    for i in 0..found.books.len()
        invariant
            all == found.books@.map_values(|b: BookInfo| book_members(b@)),
            books@.len() == i,
            forall|k: int| 0 <= k < i ==> pair_views((#[trigger] books@[k])@) == all[k],
    {
        books.push(book_fields(&found.books[i]));
    }
    assert(object_views(books@) =~= all);
    let mut list: Vec<(String, Field)> = Vec::new();
    list.push(ok_member(true));
    list.push(("total".to_string(), Field::Count(found.total)));
    list.push(("total_pages".to_string(), Field::Count(found.total_pages)));
    list.push(("page".to_string(), Field::Count(found.page)));
    list.push(("books".to_string(), Field::Objects(books)));
    assert(member_views(list@) =~= search_members(*found));
    list
}

/// The fields of the answer to a login.
pub fn login_fields(account: &LoginResult) -> (r: Vec<(String, Field)>)
    ensures
        member_views(r@) == login_members(*account),
{
    let mut list: Vec<(String, Field)> = Vec::new();
    list.push(ok_member(true));
    list.push(text_member("remix_userid", account.remix_userid.as_str()));
    list.push(text_member("remix_userkey", account.remix_userkey.as_str()));
    list.push(text_member("username", account.username.as_str()));
    list.push(text_member("email", account.email.as_str()));
    assert(member_views(list@) =~= login_members(*account));
    list
}

/// The fields of the answer to a download.
pub fn resolved_fields(url: &str) -> (r: Vec<(String, Field)>)
    ensures
        member_views(r@) == resolved_members(url@),
{
    let mut list: Vec<(String, Field)> = Vec::new();
    list.push(ok_member(true));
    list.push(text_member("url", url));
    assert(member_views(list@) =~= resolved_members(url@));
    list
}

/// The text of an answer.
pub open spec fn answer_text(
    outcome: Option<Result<Seq<(Seq<char>, FieldView)>, Seq<char>>>,
) -> Seq<char> {
    match outcome {
        Some(Ok(members)) => json_object(members),
        Some(Err(error)) => json_object(failure_members(error)),
        None => r#"{"ok":false,"error":"panic 已捕获"}"#@,
    }
}

/// The answer to a call: the fields of its result, the failure that it reports, or, where it
/// did not return at all, a fixed text.
pub fn run(outcome: Option<Result<Vec<(String, Field)>, String>>) -> (r: String)
    ensures
        r@ == (match outcome {
            Some(Ok(members)) => json_object(member_views(members@)),
            Some(Err(error)) => json_object(failure_members(error@)),
            None => r#"{"ok":false,"error":"panic 已捕获"}"#@,
        }),
        outcome matches Some(Ok(members)) ==> r@ == answer_text(Some(Ok(member_views(members@)))),
        outcome matches Some(Err(error)) ==> r@ == answer_text(Some(Err(error@))),
        outcome is None ==> r@ == answer_text(None),
{
    match outcome {
        Some(Ok(members)) => write_object(&members),
        Some(Err(error)) => write_object(&failure_fields(error.as_str())),
        None => r#"{"ok":false,"error":"panic 已捕获"}"#.to_string(),
    }
}

// ---------------------------------------------------------------------------
// Laws
// ---------------------------------------------------------------------------

/// Whether the first of the members is `ok`, with the given truth value.
pub open spec fn says_ok(members: Seq<(Seq<char>, FieldView)>, ok: bool) -> bool {
    members.len() > 0 && members[0] == ("ok"@, FieldView::Flag(ok))
}

/// Every answer says whether the call succeeded: successes say `ok: true`, failures say
/// `ok: false` and name the error.
pub proof fn law_answers_say_ok(
    found: SearchResult,
    account: LoginResult,
    url: Seq<char>,
    error: Seq<char>,
)
    ensures
        says_ok(search_members(found), true),
        says_ok(login_members(account), true),
        says_ok(resolved_members(url), true),
        says_ok(failure_members(error), false),
        failure_members(error)[1] == ("error"@, FieldView::Text(error)),
{
}

/// No member of the answer to a login holds the password: a change of the password changes
/// nothing in the answer.
pub proof fn law_login_answer_is_without_password(account: LoginResult, password: String)
    ensures
        login_members(account) == login_members(LoginResult { password, ..account }),
{
}

/// The object of a book holds each of its fourteen fields under the field's own name, and
/// nothing else.
pub proof fn law_book_object_holds_its_fields(b: BookView)
    ensures
        book_members(b).len() == 14,
        book_members(b).contains(("id"@, b.id)),
        book_members(b).contains(("isbn"@, b.isbn)),
        book_members(b).contains(("title"@, b.title)),
        book_members(b).contains(("author"@, b.author)),
        book_members(b).contains(("publisher"@, b.publisher)),
        book_members(b).contains(("language"@, b.language)),
        book_members(b).contains(("year"@, b.year)),
        book_members(b).contains(("extension"@, b.extension)),
        book_members(b).contains(("file_size"@, b.file_size)),
        book_members(b).contains(("rating"@, b.rating)),
        book_members(b).contains(("quality"@, b.quality)),
        book_members(b).contains(("image_url"@, b.image_url)),
        book_members(b).contains(("detail_url"@, b.detail_url)),
        book_members(b).contains(("download_url"@, b.download_url)),
{
    let m = book_members(b);
    assert(m[0] == ("id"@, b.id));
    assert(m[1] == ("isbn"@, b.isbn));
    assert(m[2] == ("title"@, b.title));
    assert(m[3] == ("author"@, b.author));
    assert(m[4] == ("publisher"@, b.publisher));
    assert(m[5] == ("language"@, b.language));
    assert(m[6] == ("year"@, b.year));
    assert(m[7] == ("extension"@, b.extension));
    assert(m[8] == ("file_size"@, b.file_size));
    assert(m[9] == ("rating"@, b.rating));
    assert(m[10] == ("quality"@, b.quality));
    assert(m[11] == ("image_url"@, b.image_url));
    assert(m[12] == ("detail_url"@, b.detail_url));
    assert(m[13] == ("download_url"@, b.download_url));
}

/// Books that differ in nothing but one field have objects that differ in nothing but the
/// member of that name.
pub proof fn law_fields_go_under_their_names(b: BookView, value: Seq<char>, i: int)
    requires
        0 <= i < 14,
    ensures
        book_members(BookView { id: value, ..b })[i] == (if i == 0 {
            ("id"@, value)
        } else {
            book_members(b)[i]
        }),
        book_members(BookView { isbn: value, ..b })[i] == (if i == 1 {
            ("isbn"@, value)
        } else {
            book_members(b)[i]
        }),
        book_members(BookView { title: value, ..b })[i] == (if i == 2 {
            ("title"@, value)
        } else {
            book_members(b)[i]
        }),
        book_members(BookView { author: value, ..b })[i] == (if i == 3 {
            ("author"@, value)
        } else {
            book_members(b)[i]
        }),
        book_members(BookView { publisher: value, ..b })[i] == (if i == 4 {
            ("publisher"@, value)
        } else {
            book_members(b)[i]
        }),
        book_members(BookView { language: value, ..b })[i] == (if i == 5 {
            ("language"@, value)
        } else {
            book_members(b)[i]
        }),
        book_members(BookView { year: value, ..b })[i] == (if i == 6 {
            ("year"@, value)
        } else {
            book_members(b)[i]
        }),
        book_members(BookView { extension: value, ..b })[i] == (if i == 7 {
            ("extension"@, value)
        } else {
            book_members(b)[i]
        }),
        book_members(BookView { file_size: value, ..b })[i] == (if i == 8 {
            ("file_size"@, value)
        } else {
            book_members(b)[i]
        }),
        book_members(BookView { rating: value, ..b })[i] == (if i == 9 {
            ("rating"@, value)
        } else {
            book_members(b)[i]
        }),
        book_members(BookView { quality: value, ..b })[i] == (if i == 10 {
            ("quality"@, value)
        } else {
            book_members(b)[i]
        }),
        book_members(BookView { image_url: value, ..b })[i] == (if i == 11 {
            ("image_url"@, value)
        } else {
            book_members(b)[i]
        }),
        book_members(BookView { detail_url: value, ..b })[i] == (if i == 12 {
            ("detail_url"@, value)
        } else {
            book_members(b)[i]
        }),
        book_members(BookView { download_url: value, ..b })[i] == (if i == 13 {
            ("download_url"@, value)
        } else {
            book_members(b)[i]
        }),
{
}

/// The answer to a search holds the totals of the search under their names, and one object
/// for each of its books, in their order.
pub proof fn law_search_answer(found: SearchResult, k: int)
    requires
        0 <= k < found.books@.len(),
    ensures
        search_members(found).len() == 5,
        search_members(found).contains(("ok"@, FieldView::Flag(true))),
        search_members(found).contains(("total"@, FieldView::Count(found.total))),
        search_members(found).contains(("total_pages"@, FieldView::Count(found.total_pages))),
        search_members(found).contains(("page"@, FieldView::Count(found.page))),
        search_members(found)[4].0 == "books"@,
        search_members(found)[4].1 matches FieldView::Objects(list) && list.len()
            == found.books@.len() && list[k] == book_members(found.books@[k]@),
{
    let m = search_members(found);
    assert(m[0] == ("ok"@, FieldView::Flag(true)));
    assert(m[1] == ("total"@, FieldView::Count(found.total)));
    assert(m[2] == ("total_pages"@, FieldView::Count(found.total_pages)));
    assert(m[3] == ("page"@, FieldView::Count(found.page)));
}

/// The answer to a login holds the id, the key, the name and the email of the account, each
/// under its own name, and the answer to a download holds the address as it was found.
pub proof fn law_login_and_download_answers(account: LoginResult, url: Seq<char>)
    ensures
        login_members(account).len() == 5,
        login_members(account).contains(("ok"@, FieldView::Flag(true))),
        login_members(account).contains(
            ("remix_userid"@, FieldView::Text(account.remix_userid@)),
        ),
        login_members(account).contains(
            ("remix_userkey"@, FieldView::Text(account.remix_userkey@)),
        ),
        login_members(account).contains(("username"@, FieldView::Text(account.username@))),
        login_members(account).contains(("email"@, FieldView::Text(account.email@))),
        resolved_members(url).len() == 2,
        resolved_members(url).contains(("ok"@, FieldView::Flag(true))),
        resolved_members(url).contains(("url"@, FieldView::Text(url))),
{
    let m = login_members(account);
    assert(m[0] == ("ok"@, FieldView::Flag(true)));
    assert(m[1] == ("remix_userid"@, FieldView::Text(account.remix_userid@)));
    assert(m[2] == ("remix_userkey"@, FieldView::Text(account.remix_userkey@)));
    assert(m[3] == ("username"@, FieldView::Text(account.username@)));
    assert(m[4] == ("email"@, FieldView::Text(account.email@)));
    assert(resolved_members(url)[0] == ("ok"@, FieldView::Flag(true)));
    assert(resolved_members(url)[1] == ("url"@, FieldView::Text(url)));
}

/// The fields of an answer are seen as they are, in their order.
pub proof fn law_fields_are_seen_as_they_are(
    members: Seq<(String, Field)>,
    flag: bool,
    n: u32,
    text: String,
    objects: Vec<Vec<(String, String)>>,
    k: int,
)
    ensures
        Field::Flag(flag)@ == FieldView::Flag(flag),
        Field::Count(n)@ == FieldView::Count(n),
        Field::Text(text)@ == FieldView::Text(text@),
        Field::Objects(objects)@ matches FieldView::Objects(list) && list.len() == objects@.len()
            && (0 <= k < objects@.len() ==> list[k] == pair_views(objects@[k]@)),
        member_views(members).len() == members.len(),
        0 <= k < members.len() ==> member_views(members)[k] == (members[k].0@, members[k].1@),
{
}

/// A result is answered with its own members, and a failure with its own error beside
/// `ok: false`; a call that did not return is answered like a failure.
pub proof fn law_what_a_call_is_answered(
    members: Seq<(Seq<char>, FieldView)>,
    error: Seq<char>,
)
    ensures
        answer_text(Some(Ok(members))) == json_object(members),
        answer_text(Some(Err(error))) == json_object(
            seq![("ok"@, FieldView::Flag(false)), ("error"@, FieldView::Text(error))],
        ),
        answer_text(None) == r#"{"ok":false,"error":"panic 已捕获"}"#@,
{
}

} // verus!
