//! The tabular store: a delimited file with a fixed header row, followed by
//! one row for each book that was processed.

use crate::error::ErrorKind;
use crate::text::views;
use vstd::prelude::*;

verus! {

/// `csv::Error`, what the writer of the `csv` crate reports. Nothing is
/// known of what is inside.
#[verifier::external_type_specification]
#[verifier::external_body]
pub struct ExCsvError(csv::Error);

/// What the `csv` crate writes for one record with its default settings:
/// the fields in order, separated by commas, each one quoted where it has to
/// be, and a line feed at the end.
pub uninterp spec fn csv_record(fields: Seq<Seq<char>>) -> Seq<u8>;

/// Writes one record into an empty buffer with `csv::Writer::from_writer`,
/// `Writer::write_record` and `Writer::into_inner`, and hands the buffer
/// back. Trusted: the writer reports no error, since its buffer is memory
/// and the record is the only one it is given; and what the buffer holds
/// depends on the fields alone, which is what [`csv_record`] names.
#[verifier::external_body]
fn write_record(fields: &Vec<String>) -> (written: Result<Vec<u8>, csv::Error>)
    ensures
        written is Ok,
        written matches Ok(bytes) ==> bytes@ == csv_record(views(fields@)),
{
    let mut writer = csv::Writer::from_writer(Vec::new());
    writer.write_record(fields)?;
    writer.into_inner().map_err(|stuck| csv::Error::from(stuck.into_error()))
}

/// The column names, in the order of the columns.
pub open spec fn header_names() -> Seq<Seq<char>> {
    seq![
        "ID"@,
        "Title"@,
        "Subtitle"@,
        "Author(s)"@,
        "Series"@,
        "Series Index"@,
        "Cover Path"@,
        "Synopsis (HTML)"@,
        "Tag(s)"@,
        "Publisher"@,
        "Release Date"@,
        "Language Code"@,
        "ISBN"@,
    ]
}

/// What one append adds to the store: the header row first where the store
/// does not exist yet, then the row.
pub open spec fn appended(store_exists: bool, row: Seq<Seq<char>>) -> Seq<u8> {
    if store_exists {
        csv_record(row)
    } else {
        csv_record(header_names()) + csv_record(row)
    }
}

/// The store after `row` was appended to it. `None` is a store that does
/// not exist.
pub open spec fn store_after(store: Option<Seq<u8>>, row: Seq<Seq<char>>) -> Seq<u8> {
    match store {
        Some(content) => content + appended(true, row),
        None => appended(false, row),
    }
}

/// The store after each of `rows` was appended to it in turn.
pub open spec fn store_after_all(store: Option<Seq<u8>>, rows: Seq<Seq<Seq<char>>>) -> Option<
    Seq<u8>,
>
    decreases rows.len(),
{
    if rows.len() == 0 {
        store
    } else {
        Some(store_after(store_after_all(store, rows.drop_last()), rows.last()))
    }
}

/// The rows of `rows` as they stand in the store, one after the other.
pub open spec fn rows_bytes(rows: Seq<Seq<Seq<char>>>) -> Seq<u8>
    decreases rows.len(),
{
    if rows.len() == 0 {
        Seq::empty()
    } else {
        rows_bytes(rows.drop_last()) + csv_record(rows.last())
    }
}

/// The column names, in the order of the columns.
pub fn header() -> (names: Vec<String>)
    ensures
        views(names@) == header_names(),
{
    let mut names: Vec<String> = Vec::new();
    names.push(String::from_str("ID"));
    names.push(String::from_str("Title"));
    names.push(String::from_str("Subtitle"));
    names.push(String::from_str("Author(s)"));
    names.push(String::from_str("Series"));
    names.push(String::from_str("Series Index"));
    names.push(String::from_str("Cover Path"));
    names.push(String::from_str("Synopsis (HTML)"));
    names.push(String::from_str("Tag(s)"));
    names.push(String::from_str("Publisher"));
    names.push(String::from_str("Release Date"));
    names.push(String::from_str("Language Code"));
    names.push(String::from_str("ISBN"));
    assert(views(names@) =~= header_names());
    names
}

/// One record as the store holds it. Writing into memory does not fail.
pub fn encode_record(fields: &Vec<String>) -> (encoded: Result<Vec<u8>, ErrorKind>)
    ensures
        encoded matches Ok(bytes) && bytes@ == csv_record(views(fields@)),
{
    match write_record(fields) {
        Ok(bytes) => Ok(bytes),
        Err(_) => Err(ErrorKind::Io),
    }
}

/// Puts together what one append adds to the store. `header` is the encoded
/// header row where the store does not exist yet, and `None` where it does;
/// `row` is the encoded row. A header that failed is reported before a row
/// that failed.
pub fn append_bytes(
    header: Option<Result<Vec<u8>, ErrorKind>>,
    row: Result<Vec<u8>, ErrorKind>,
) -> (out: Result<Vec<u8>, ErrorKind>)
    ensures
        match (header, row) {
            (Some(Err(error)), _) => out == Err::<Vec<u8>, ErrorKind>(error),
            (_, Err(error)) => out == Err::<Vec<u8>, ErrorKind>(error),
            (Some(Ok(first)), Ok(second)) => out matches Ok(bytes) && bytes@ == first@ + second@,
            (None, Ok(second)) => out matches Ok(bytes) && bytes@ == second@,
        },
{
    let mut bytes = match header {
        Some(Ok(first)) => first,
        Some(Err(error)) => {
            return Err(error);
        },
        None => Vec::new(),
    };
    let mut second = match row {
        Ok(second) => second,
        Err(error) => {
            return Err(error);
        },
    };
    bytes.append(&mut second);
    Ok(bytes)
}

/// The header row is written once, by the append that creates the store:
/// after any number of appends to a store that did not exist, the store
/// holds the header row and then the rows, and nothing else.
pub proof fn lemma_header_written_once(rows: Seq<Seq<Seq<char>>>)
    requires
        rows.len() > 0,
    ensures
        store_after_all(None, rows) == Some(csv_record(header_names()) + rows_bytes(rows)),
    decreases rows.len(),
{
    let header = csv_record(header_names());
    let earlier = rows.drop_last();
    if earlier.len() == 0 {
        assert(store_after_all(None, earlier) == None::<Seq<u8>>);
        assert(rows_bytes(earlier) =~= Seq::<u8>::empty());
        assert(header + csv_record(rows.last()) =~= header + rows_bytes(rows));
    } else {
        lemma_header_written_once(earlier);
        assert((header + rows_bytes(earlier)) + csv_record(rows.last()) =~= header + rows_bytes(
            rows,
        ));
    }
}

/// Appends to a store that exists add rows and never a header: the store
/// keeps what it held and gains the rows.
pub proof fn lemma_existing_store_gains_rows(content: Seq<u8>, rows: Seq<Seq<Seq<char>>>)
    ensures
        store_after_all(Some(content), rows) == Some(content + rows_bytes(rows)),
    decreases rows.len(),
{
    if rows.len() == 0 {
        assert(content + rows_bytes(rows) =~= content);
    } else {
        lemma_existing_store_gains_rows(content, rows.drop_last());
        assert((content + rows_bytes(rows.drop_last())) + csv_record(rows.last()) =~= content
            + rows_bytes(rows));
    }
}

} // verus!
