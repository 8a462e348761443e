//! Book identifiers: how one is read from the address of a book page, and
//! the address that belongs to one.

use crate::fields::{
    authors_of, cover_url_of, get_authors_str, get_cover_url, get_isbn, get_language_code,
    get_publisher, get_release_date, get_series_index, get_series_name, get_subtitle,
    get_synopsis_html, get_tags_str, get_title, isbn_of, language_code_of, publisher_of,
    release_date_of, series_index_of, series_name_of, subtitle_of, synopsis_of, tags_of, title_of,
    AUTHORS_SELECTOR, COVER_ATTRIBUTE, COVER_SELECTOR, DETAIL_ITEM_SELECTOR,
    DETAIL_VALUE_SELECTOR, IMPRINT_SELECTOR, SERIES_INDEX_SELECTOR, SERIES_NAME_SELECTOR,
    SUBTITLE_SELECTOR, SYNOPSIS_SELECTOR, TAGS_SELECTOR, TITLE_SELECTOR,
};
use crate::metadata::{Metadata, Record};
use crate::error::ErrorKind;
use crate::page::{
    attributes_in, markup_in, parse_book_page, parsed_document, selection, texts_in,
    MAX_BODY_CHARS,
};
use crate::tags::{lemma_sorted_unique_exists, sorted_unique};
use crate::text::{
    after_last, all_whitespace, chars_of, contains, is_infix, last_index_of, lemma_trim_empty,
    occurs_at, part_after_last, string_of, trim, trimmed, view_of,
};
use vstd::prelude::*;

verus! {

/// What the address of every book page starts with. The identifier of the
/// book follows it.
pub const BOOK_PATH: &'static str = "https://www.kobo.com/tw/zh/ebook/";

/// The line that ends a list of addresses.
pub const END_OF_INPUT: &'static str = "done";

/// The identifier that `raw` names: where `raw` holds the start of a book
/// address, what follows its last slash, trimmed, unless nothing is left.
pub open spec fn book_id_of(raw: Seq<char>) -> Option<Seq<char>> {
    if is_infix(BOOK_PATH@, raw) && trim(after_last(raw, '/')).len() > 0 {
        Some(trim(after_last(raw, '/')))
    } else {
        None
    }
}

/// The record of the book `id`, as the rules read it from `book_page`.
pub open spec fn record_of(id: Seq<char>, book_page: scraper::Html) -> Record {
    Record {
        id,
        title: title_of(texts_in(book_page, TITLE_SELECTOR@)),
        subtitle: subtitle_of(texts_in(book_page, SUBTITLE_SELECTOR@)),
        authors: authors_of(texts_in(book_page, AUTHORS_SELECTOR@)),
        series_name: series_name_of(texts_in(book_page, SERIES_NAME_SELECTOR@)),
        series_index: series_index_of(texts_in(book_page, SERIES_INDEX_SELECTOR@)),
        cover: cover_url_of(attributes_in(book_page, COVER_SELECTOR@, COVER_ATTRIBUTE@)),
        synopsis: synopsis_of(markup_in(book_page, SYNOPSIS_SELECTOR@)),
        tags: tags_of(texts_in(book_page, TAGS_SELECTOR@)),
        publisher: publisher_of(
            texts_in(book_page, IMPRINT_SELECTOR@),
            texts_in(book_page, DETAIL_ITEM_SELECTOR@),
        ),
        release_date: release_date_of(texts_in(book_page, DETAIL_VALUE_SELECTOR@)),
        language_code: language_code_of(texts_in(book_page, DETAIL_VALUE_SELECTOR@)),
        isbn: isbn_of(texts_in(book_page, DETAIL_VALUE_SELECTOR@)),
    }
}

/// The record of the book `id` of which nothing else is known: every field
/// but the identifier is empty or absent.
pub open spec fn bare_record(id: Seq<char>) -> Record {
    Record {
        id,
        title: Seq::empty(),
        subtitle: None,
        authors: Seq::empty(),
        series_name: None,
        series_index: None,
        cover: Seq::empty(),
        synopsis: Seq::empty(),
        tags: Seq::empty(),
        publisher: Seq::empty(),
        release_date: Seq::empty(),
        language_code: Seq::empty(),
        isbn: Seq::empty(),
    }
}

/// None of the rules finds on `book_page` what it looks for.
pub open spec fn finds_nothing(book_page: scraper::Html) -> bool {
    &&& selection(book_page, TITLE_SELECTOR@).len() == 0
    &&& selection(book_page, SUBTITLE_SELECTOR@).len() == 0
    &&& selection(book_page, AUTHORS_SELECTOR@).len() == 0
    &&& selection(book_page, SERIES_NAME_SELECTOR@).len() == 0
    &&& selection(book_page, SERIES_INDEX_SELECTOR@).len() == 0
    &&& selection(book_page, COVER_SELECTOR@).len() == 0
    &&& selection(book_page, SYNOPSIS_SELECTOR@).len() == 0
    &&& selection(book_page, TAGS_SELECTOR@).len() == 0
    &&& selection(book_page, IMPRINT_SELECTOR@).len() == 0
    &&& selection(book_page, DETAIL_ITEM_SELECTOR@).len() == 0
    &&& selection(book_page, DETAIL_VALUE_SELECTOR@).len() == 0
}

/// A text that names a book.
pub trait Id: Sized {
    /// The characters of the text.
    spec fn text(self) -> Seq<char>;

    /// Reads the identifier of a book from an address, or from any line that
    /// holds one. A text that holds no book address has no identifier, and
    /// neither has one that ends with its last slash.
    fn from(self) -> (book_id: Option<String>)
        ensures
            view_of(book_id) == book_id_of(self.text()),
    ;

    /// Puts the record of this book together from the body of its page:
    /// parses the body and reads each field by its rule. No field can make
    /// this fail; only a body that is too long to be parsed does.
    fn get_metadata(self, book_page_html: &str) -> (found: Result<Metadata, ErrorKind>)
        ensures
            match found {
                Ok(metadata) => {
                    &&& book_page_html@.len() <= MAX_BODY_CHARS
                    &&& metadata@ == record_of(self.text(), parsed_document(book_page_html@))
                    &&& metadata.series_index matches Some(number) ==> number.wf()
                },
                Err(error) => book_page_html@.len() > MAX_BODY_CHARS && error == ErrorKind::Fetch,
            },
    ;

    /// The address of the page of this book.
    fn get_book_page_url(self) -> (url: String)
        ensures
            url@ == BOOK_PATH@ + self.text(),
    ;
}

impl Id for &str {
    open spec fn text(self) -> Seq<char> {
        self@
    }

    fn from(self) -> (book_id: Option<String>) {
        let chars = chars_of(self);
        if !contains(&chars, &chars_of(BOOK_PATH)) {
            return None;
        }
        let segment = trimmed(&part_after_last(&chars, '/'));
        if segment.len() == 0 {
            None
        } else {
            Some(string_of(&segment))
        }
    }

    fn get_metadata(self, book_page_html: &str) -> (found: Result<Metadata, ErrorKind>) {
        let book_page = match parse_book_page(book_page_html) {
            Ok(book_page) => book_page,
            Err(error) => {
                return Err(error);
            },
        };
        Ok(Metadata {
            id: String::from_str(self),
            title: get_title(&book_page),
            subtitle: get_subtitle(&book_page),
            authors: get_authors_str(&book_page),
            series_name: get_series_name(&book_page),
            series_index: get_series_index(&book_page),
            cover: get_cover_url(&book_page),
            synopsis: get_synopsis_html(&book_page),
            tags: get_tags_str(&book_page),
            publisher: get_publisher(&book_page),
            release_date: get_release_date(&book_page),
            language_code: get_language_code(&book_page),
            isbn: get_isbn(&book_page),
        })
    }

    fn get_book_page_url(self) -> (url: String) {
        let mut url = String::from_str(BOOK_PATH);
        url.append(self);
        url
    }
}

/// What a line of input asks for.
#[derive(Debug, PartialEq, Eq)]
pub enum Input {
    /// The list of addresses ends here.
    Done,
    /// The line names no book.
    NotABook,
    /// The line names the book with this identifier.
    Book(String),
}

/// Reads one line of input. White space around the line does not count.
pub fn read_input(line: &str) -> (input: Input)
    ensures
        match input {
            Input::Done => trim(line@) == END_OF_INPUT@,
            Input::NotABook => trim(line@) != END_OF_INPUT@ && book_id_of(trim(line@)) is None,
            Input::Book(id) => trim(line@) != END_OF_INPUT@ && book_id_of(trim(line@)) == Some(
                id@,
            ),
        },
{
    let text = string_of(&trimmed(&chars_of(line)));
    if text == String::from_str(END_OF_INPUT) {
        return Input::Done;
    }
    match text.as_str().from() {
        Some(id) => Input::Book(id),
        None => Input::NotABook,
    }
}

/// A text that holds no book address names no book.
pub proof fn lemma_foreign_text_names_no_book(raw: Seq<char>)
    requires
        !is_infix(BOOK_PATH@, raw),
    ensures
        book_id_of(raw) is None,
{
}

/// A text with nothing but white space after its last slash names no book.
pub proof fn lemma_blank_segment_names_no_book(raw: Seq<char>)
    requires
        all_whitespace(after_last(raw, '/')),
    ensures
        book_id_of(raw) is None,
{
    lemma_trim_empty(after_last(raw, '/'));
}

/// A text that holds a book address names the book whose identifier follows
/// its last slash, trimmed, where anything but white space follows it.
pub proof fn lemma_segment_names_book(raw: Seq<char>)
    requires
        is_infix(BOOK_PATH@, raw),
        !all_whitespace(after_last(raw, '/')),
    ensures
        book_id_of(raw) == Some(trim(after_last(raw, '/'))),
{
    lemma_trim_empty(after_last(raw, '/'));
}

/// What follows the last slash of a text that ends in a slash, with a tail
/// that holds no slash behind it, is the tail.
proof fn lemma_after_last_of_tail(head: Seq<char>, tail: Seq<char>)
    requires
        head.len() > 0,
        head.last() == '/',
        !tail.contains('/'),
    ensures
        last_index_of(head + tail, '/') == head.len() - 1,
        after_last(head + tail, '/') == tail,
    decreases tail.len(),
{
    let whole = head + tail;
    if tail.len() == 0 {
        assert(whole =~= head);
    } else {
        assert(tail[tail.len() - 1] != '/');
        assert(whole.last() == tail.last());
        assert(whole.drop_last() =~= head + tail.drop_last());
        assert forall|i: int| 0 <= i < tail.drop_last().len() implies tail.drop_last()[i]
            != '/' by {
            assert(tail[i] != '/');
        }
        lemma_after_last_of_tail(head, tail.drop_last());
    }
    assert(whole.skip(head.len() as int) =~= tail);
}

/// The start of a book address alone names no book, nor does it with only
/// white space behind it; with anything else that holds no slash behind it,
/// it names the book whose identifier is what stands behind it, trimmed.
pub proof fn lemma_address_names_its_book(tail: Seq<char>)
    requires
        !tail.contains('/'),
    ensures
        all_whitespace(tail) ==> book_id_of(BOOK_PATH@ + tail) is None,
        !all_whitespace(tail) ==> book_id_of(BOOK_PATH@ + tail) == Some(trim(tail)),
{
    reveal_strlit("https://www.kobo.com/tw/zh/ebook/");
    let raw = BOOK_PATH@ + tail;
    assert(raw.subrange(0, BOOK_PATH@.len() as int) =~= BOOK_PATH@);
    assert(occurs_at(raw, BOOK_PATH@, 0));
    lemma_after_last_of_tail(BOOK_PATH@, tail);
    lemma_trim_empty(tail);
}

/// Every field has its default: a page on which no rule finds anything
/// still gives a record, in which every field but the identifier is empty
/// or absent.
pub proof fn lemma_bare_page_gives_defaults(id: Seq<char>, book_page: scraper::Html)
    requires
        finds_nothing(book_page),
    ensures
        record_of(id, book_page) == bare_record(id),
{
    let none = Seq::<Seq<char>>::empty();
    lemma_sorted_unique_exists(none);
    if sorted_unique(none).len() > 0 {
        assert(sorted_unique(none).to_set().contains(sorted_unique(none)[0]));
        assert(none.to_set().contains(sorted_unique(none)[0]));
    }
    assert(texts_in(book_page, TAGS_SELECTOR@) =~= none);
}

} // verus!
