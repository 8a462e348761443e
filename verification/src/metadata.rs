//! The record of one book, and the row that it becomes in the store.

use crate::error::ErrorKind;
use crate::series_index::SeriesIndex;
use crate::store::{append_bytes, appended, encode_record, header};
use crate::text::{view_of, views};
use vstd::prelude::*;

verus! {

/// What is known of one book. A record is put together once, from the
/// identifier and from what the rules read on the book's page, and is not
/// changed after that.
#[derive(Debug, PartialEq)]
pub struct Metadata {
    pub id: String,
    pub title: String,
    pub subtitle: Option<String>,
    pub authors: String,
    pub series_name: Option<String>,
    pub series_index: Option<SeriesIndex>,
    pub cover: String,
    pub synopsis: String,
    pub tags: String,
    pub publisher: String,
    pub release_date: String,
    pub language_code: String,
    pub isbn: String,
}

/// A record as plain text: each field as the characters it holds.
pub struct Record {
    pub id: Seq<char>,
    pub title: Seq<char>,
    pub subtitle: Option<Seq<char>>,
    pub authors: Seq<char>,
    pub series_name: Option<Seq<char>>,
    pub series_index: Option<Seq<char>>,
    pub cover: Seq<char>,
    pub synopsis: Seq<char>,
    pub tags: Seq<char>,
    pub publisher: Seq<char>,
    pub release_date: Seq<char>,
    pub language_code: Seq<char>,
    pub isbn: Seq<char>,
}

/// The number of a book in its series in canonical notation, where the book
/// has one.
pub open spec fn index_view(index: Option<SeriesIndex>) -> Option<Seq<char>> {
    match index {
        Some(number) => Some(number@),
        None => None,
    }
}

impl View for Metadata {
    type V = Record;

    open spec fn view(&self) -> Record {
        Record {
            id: self.id@,
            title: self.title@,
            subtitle: view_of(self.subtitle),
            authors: self.authors@,
            series_name: view_of(self.series_name),
            series_index: index_view(self.series_index),
            cover: self.cover@,
            synopsis: self.synopsis@,
            tags: self.tags@,
            publisher: self.publisher@,
            release_date: self.release_date@,
            language_code: self.language_code@,
            isbn: self.isbn@,
        }
    }
}

/// The text of a field that may be absent: an absent field is empty.
pub open spec fn or_empty(field: Option<Seq<char>>) -> Seq<char> {
    match field {
        Some(text) => text,
        None => Seq::empty(),
    }
}

/// The row of `record` in the store: its fields in the order of the
/// columns, with the path of the stored image in the place of the address
/// that the image came from.
pub open spec fn row_of(record: Record, img_path: Seq<char>) -> Seq<Seq<char>> {
    seq![
        record.id,
        record.title,
        or_empty(record.subtitle),
        record.authors,
        or_empty(record.series_name),
        or_empty(record.series_index),
        img_path,
        record.synopsis,
        record.tags,
        record.publisher,
        record.release_date,
        record.language_code,
        record.isbn,
    ]
}

/// The text of a field that may be absent.
fn text_or_empty(field: &Option<String>) -> (text: String)
    ensures
        text@ == or_empty(view_of(*field)),
{
    match field {
        Some(text) => text.clone(),
        None => String::new(),
    }
}

impl Metadata {
    /// The row of this record in the store.
    pub fn row(&self, img_path: &str) -> (fields: Vec<String>)
        ensures
            views(fields@) == row_of(self@, img_path@),
    {
        let mut fields: Vec<String> = Vec::new();
        fields.push(self.id.clone());
        fields.push(self.title.clone());
        fields.push(text_or_empty(&self.subtitle));
        fields.push(self.authors.clone());
        fields.push(text_or_empty(&self.series_name));
        fields.push(
            match &self.series_index {
                Some(number) => number.to_string(),
                None => String::new(),
            },
        );
        fields.push(String::from_str(img_path));
        fields.push(self.synopsis.clone());
        fields.push(self.tags.clone());
        fields.push(self.publisher.clone());
        fields.push(self.release_date.clone());
        fields.push(self.language_code.clone());
        fields.push(self.isbn.clone());
        assert(views(fields@) =~= row_of(self@, img_path@));
        fields
    }

    /// What has to be written at the end of the store to append this record:
    /// its row, after the header row where the store does not exist yet.
    /// `img_path` is where the cover image was stored. The store itself is
    /// not touched: the caller writes the bytes. Putting the bytes together
    /// does not fail.
    pub fn append_to_csv_file(self, img_path: &str, store_exists: bool) -> (written: Result<
        Vec<u8>,
        ErrorKind,
    >)
        ensures
            written matches Ok(bytes) && bytes@ == appended(
                store_exists,
                row_of(self@, img_path@),
            ),
    {
        let first = if store_exists {
            None
        } else {
            Some(encode_record(&header()))
        };
        let second = encode_record(&self.row(img_path));
        append_bytes(first, second)
    }
}

} // verus!
