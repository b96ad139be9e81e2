use vstd::prelude::*;

verus! {

/// A book as a search page shows it.
#[derive(Debug)]
pub struct BookInfo {
    pub id: String,
    pub isbn: String,
    pub title: String,
    pub author: String,
    pub publisher: String,
    pub language: String,
    pub year: String,
    pub extension: String,
    pub file_size: String,
    pub rating: String,
    pub quality: String,
    pub image_url: String,
    pub detail_url: String,
    pub download_url: String,
}

/// The texts of a book.
pub struct BookView {
    pub id: Seq<char>,
    pub isbn: Seq<char>,
    pub title: Seq<char>,
    pub author: Seq<char>,
    pub publisher: Seq<char>,
    pub language: Seq<char>,
    pub year: Seq<char>,
    pub extension: Seq<char>,
    pub file_size: Seq<char>,
    pub rating: Seq<char>,
    pub quality: Seq<char>,
    pub image_url: Seq<char>,
    pub detail_url: Seq<char>,
    pub download_url: Seq<char>,
}

impl View for BookInfo {
    type V = BookView;

    open spec fn view(&self) -> BookView {
        BookView {
            id: self.id@,
            isbn: self.isbn@,
            title: self.title@,
            author: self.author@,
            publisher: self.publisher@,
            language: self.language@,
            year: self.year@,
            extension: self.extension@,
            file_size: self.file_size@,
            rating: self.rating@,
            quality: self.quality@,
            image_url: self.image_url@,
            detail_url: self.detail_url@,
            download_url: self.download_url@,
        }
    }
}

/// A book of which nothing is known.
pub open spec fn blank_book() -> BookView {
    BookView {
        id: seq![],
        isbn: seq![],
        title: seq![],
        author: seq![],
        publisher: seq![],
        language: seq![],
        year: seq![],
        extension: seq![],
        file_size: seq![],
        rating: seq![],
        quality: seq![],
        image_url: seq![],
        detail_url: seq![],
        download_url: seq![],
    }
}

impl Default for BookInfo {
    fn default() -> (r: Self)
        ensures
            r@ == blank_book(),
    {
        BookInfo {
            id: String::new(),
            isbn: String::new(),
            title: String::new(),
            author: String::new(),
            publisher: String::new(),
            language: String::new(),
            year: String::new(),
            extension: String::new(),
            file_size: String::new(),
            rating: String::new(),
            quality: String::new(),
            image_url: String::new(),
            detail_url: String::new(),
            download_url: String::new(),
        }
    }
}

/// One page of search results.
#[derive(Debug)]
pub struct SearchResult {
    pub books: Vec<BookInfo>,
    pub total: u32,
    pub page: u32,
    pub total_pages: u32,
}

/// The models of several books.
pub open spec fn book_views(v: Seq<BookInfo>) -> Seq<BookView> {
    v.map_values(|b: BookInfo| b@)
}

/// Each field of a book is seen under its own name, and books are seen in their order. A book
/// of which nothing is known has empty texts only.
pub proof fn law_book_is_seen_field_by_field(b: BookInfo, list: Seq<BookInfo>, k: int)
    requires
        0 <= k < list.len(),
    ensures
        b@.id == b.id@,
        b@.isbn == b.isbn@,
        b@.title == b.title@,
        b@.author == b.author@,
        b@.publisher == b.publisher@,
        b@.language == b.language@,
        b@.year == b.year@,
        b@.extension == b.extension@,
        b@.file_size == b.file_size@,
        b@.rating == b.rating@,
        b@.quality == b.quality@,
        b@.image_url == b.image_url@,
        b@.detail_url == b.detail_url@,
        b@.download_url == b.download_url@,
        book_views(list).len() == list.len(),
        book_views(list)[k] == list[k]@,
        blank_book().id.len() == 0,
        blank_book().isbn.len() == 0,
        blank_book().title.len() == 0,
        blank_book().author.len() == 0,
        blank_book().publisher.len() == 0,
        blank_book().language.len() == 0,
        blank_book().year.len() == 0,
        blank_book().extension.len() == 0,
        blank_book().file_size.len() == 0,
        blank_book().rating.len() == 0,
        blank_book().quality.len() == 0,
        blank_book().image_url.len() == 0,
        blank_book().detail_url.len() == 0,
        blank_book().download_url.len() == 0,
{
}

} // verus!
