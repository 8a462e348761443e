//! Metadata of Kobo e-books.
//!
//! From the page of a book the library reads a fixed set of fields, each by
//! a rule of its own, and puts them together into one record. It says under
//! which name the cover image of a record is stored, and which bytes append
//! the record to a store of comma-separated rows. Fetching pages and images
//! and writing files is left to the caller.

pub mod error;
pub mod fields;
pub mod id;
pub mod image;
pub mod metadata;
pub mod page;
pub mod series_index;
pub mod store;
pub mod tags;
pub mod text;
