//! The rules that read the fields of a book from its page. Each rule stands
//! alone: it has its own selector and its own default, and a page that lacks
//! what one rule looks for leaves the others untouched.
//!
//! Every rule comes in two parts. The part named `get_..` asks the page for
//! what the rule's selector matches; the part named `.._from` turns what was
//! found into the field, and says what the field is when nothing was found.

use crate::page::{
    attributes_in, markup_in, select_attributes, select_markup, select_texts, texts_in,
};
use crate::series_index::{fraction_part, is_decimal, parse_decimal, whole_part, SeriesIndex};
use crate::tags::{canonical_tags, lemma_sorted_unique_ignores_order, sorted_unique};
use crate::text::{
    chars_of, digit, is_digit, join, joined, push_char, replace_all, replaced, string_of, trim,
    trimmed, view_of, views, views_of,
};
use vstd::prelude::*;

verus! {

/// Matches the heading that holds the title.
pub const TITLE_SELECTOR: &'static str = "div.item-info > h1";

/// Matches the subtitle.
pub const SUBTITLE_SELECTOR: &'static str = "div.item-info span.subtitle";

/// Matches the name of each contributor.
pub const AUTHORS_SELECTOR: &'static str = "a.contributor-name";

/// Matches the link to the series.
pub const SERIES_NAME_SELECTOR: &'static str = "a[data-track-info='{}']";

/// Matches the text that numbers the book within its series.
pub const SERIES_INDEX_SELECTOR: &'static str = "span.sequenced-name-prefix";

/// Matches the link that preloads the cover image.
pub const COVER_SELECTOR: &'static str = "link[as='image']";

/// Matches the block that holds the synopsis.
pub const SYNOPSIS_SELECTOR: &'static str = "div.synopsis-description";

/// Matches each tag.
pub const TAGS_SELECTOR: &'static str = "a.rankingAnchor.description-anchor";

/// Matches the imprint.
pub const IMPRINT_SELECTOR: &'static str = "a.description-anchor > span";

/// Matches the items of the list of further details. The first one names
/// the publishing company.
pub const DETAIL_ITEM_SELECTOR: &'static str = "div.bookitem-secondary-metadata li";

/// Matches the values in the list of further details: the release date, the
/// ISBN and the language, in this order.
pub const DETAIL_VALUE_SELECTOR: &'static str = "div.bookitem-secondary-metadata li > span";

/// The attribute that holds the address of the cover image.
pub const COVER_ATTRIBUTE: &'static str = "href";

/// The part of a cover address that asks for the small image.
pub const SMALL_COVER: &'static str = "/353/569/90/";

/// The part of a cover address that asks for the large image.
pub const LARGE_COVER: &'static str = "/1650/2200/100/";

/// Stands between two authors.
pub const AUTHOR_SEPARATOR: &'static str = "&";

/// Stands between two tags.
pub const TAG_SEPARATOR: &'static str = ",";

/// The title: the first heading, trimmed; empty where there is none.
pub open spec fn title_of(headings: Seq<Seq<char>>) -> Seq<char> {
    if headings.len() > 0 {
        trim(headings[0])
    } else {
        Seq::empty()
    }
}

/// The subtitle: the first one found, trimmed; absent where there is none.
pub open spec fn subtitle_of(subtitles: Seq<Seq<char>>) -> Option<Seq<char>> {
    if subtitles.len() > 0 {
        Some(trim(subtitles[0]))
    } else {
        None
    }
}

/// The authors: all the names in the order of the page, a name as often as
/// the page has it, with the separator between them.
pub open spec fn authors_of(names: Seq<Seq<char>>) -> Seq<char> {
    join(names, AUTHOR_SEPARATOR@)
}

/// The name of the series: the text of the first link, as it is; absent
/// where there is none.
pub open spec fn series_name_of(links: Seq<Seq<char>>) -> Option<Seq<char>> {
    if links.len() > 0 {
        Some(links[0])
    } else {
        None
    }
}

/// Whether `c` can stand in a decimal numeral.
pub open spec fn is_decimal_char(c: char) -> bool {
    is_digit(c) || c == '.'
}

/// `text` without the characters that cannot stand in a decimal numeral.
pub open spec fn decimal_chars(text: Seq<char>) -> Seq<char> {
    text.filter(|c: char| is_decimal_char(c))
}

/// The number of the book in its series: what is left of the first text
/// when all but digits and points is taken out, read as a decimal numeral;
/// absent where there is no text or where what is left is no numeral.
pub open spec fn series_index_of(prefixes: Seq<Seq<char>>) -> Option<Seq<char>> {
    if prefixes.len() > 0 {
        parse_decimal(decimal_chars(prefixes[0]))
    } else {
        None
    }
}

/// The address of the cover: that of the first link, asking for the large
/// image where it asked for the small one; empty where there is no link or
/// where the first link has no address.
pub open spec fn cover_url_of(addresses: Seq<Option<Seq<char>>>) -> Seq<char> {
    if addresses.len() > 0 && addresses[0] is Some {
        replace_all(addresses[0]->0, SMALL_COVER@, LARGE_COVER@)
    } else {
        Seq::empty()
    }
}

/// The synopsis: the markup inside the first block, tags and all; empty
/// where there is none.
pub open spec fn synopsis_of(blocks: Seq<Seq<char>>) -> Seq<char> {
    if blocks.len() > 0 {
        blocks[0]
    } else {
        Seq::empty()
    }
}

/// The tags: in ascending order, each one once, with the separator between
/// them.
pub open spec fn tags_of(tags: Seq<Seq<char>>) -> Seq<char> {
    join(sorted_unique(tags), TAG_SEPARATOR@)
}

/// The publisher: the imprint as it is, where the page has one; else the
/// first item of the details, trimmed; else empty.
pub open spec fn publisher_of(imprints: Seq<Seq<char>>, items: Seq<Seq<char>>) -> Seq<char> {
    if imprints.len() > 0 {
        imprints[0]
    } else if items.len() > 0 {
        trim(items[0])
    } else {
        Seq::empty()
    }
}

/// `text` with a hyphen in the place of each character that is no digit.
pub open spec fn hyphenated(text: Seq<char>) -> Seq<char> {
    text.map_values(
        |c: char|
            if is_digit(c) {
                c
            } else {
                '-'
            },
    )
}

/// `text` without its last character.
pub open spec fn without_last(text: Seq<char>) -> Seq<char> {
    if text.len() > 0 {
        text.drop_last()
    } else {
        text
    }
}

/// The release date: the first value of the details with a hyphen for each
/// character that is no digit, and without its last character, which is the
/// hyphen that stands for the mark after the day; empty where there is no
/// value.
pub open spec fn release_date_of(values: Seq<Seq<char>>) -> Seq<char> {
    if values.len() > 0 {
        without_last(hyphenated(values[0]))
    } else {
        Seq::empty()
    }
}

/// The languages that have a code, each with its code.
pub open spec fn language_table() -> Seq<(Seq<char>, Seq<char>)> {
    seq![("中文"@, "zh"@), ("英文"@, "en"@), ("日文"@, "ja"@)]
}

/// What `table` holds for `key`: the second part of the first entry whose
/// first part is `key`; empty where there is no such entry.
pub open spec fn lookup(table: Seq<(Seq<char>, Seq<char>)>, key: Seq<char>) -> Seq<char>
    decreases table.len(),
{
    if table.len() == 0 {
        Seq::empty()
    } else if table[0].0 == key {
        table[0].1
    } else {
        lookup(table.skip(1), key)
    }
}

/// The language code: the code that the table has for the third value of
/// the details; empty where there are fewer values or where the table does
/// not have the language.
pub open spec fn language_code_of(values: Seq<Seq<char>>) -> Seq<char> {
    if values.len() > 2 {
        lookup(language_table(), values[2])
    } else {
        Seq::empty()
    }
}

/// The ISBN: the second value of the details, as it is; empty where there
/// are fewer values.
pub open spec fn isbn_of(values: Seq<Seq<char>>) -> Seq<char> {
    if values.len() > 1 {
        values[1]
    } else {
        Seq::empty()
    }
}

/// The views of the entries of a table.
pub open spec fn table_views(table: Seq<(String, String)>) -> Seq<(Seq<char>, Seq<char>)> {
    table.map_values(|entry: (String, String)| (entry.0@, entry.1@))
}

/// `text` without its leading and trailing white space.
fn trimmed_string(text: &String) -> (out: String)
    ensures
        out@ == trim(text@),
{
    string_of(&trimmed(&chars_of(text.as_str())))
}

/// The title of the book.
pub fn title_from(headings: &Vec<String>) -> (title: String)
    ensures
        title@ == title_of(views(headings@)),
{
    if headings.len() > 0 {
        trimmed_string(&headings[0])
    } else {
        String::new()
    }
}

/// The subtitle of the book.
pub fn subtitle_from(subtitles: &Vec<String>) -> (subtitle: Option<String>)
    ensures
        view_of(subtitle) == subtitle_of(views(subtitles@)),
{
    if subtitles.len() > 0 {
        Some(trimmed_string(&subtitles[0]))
    } else {
        None
    }
}

/// The authors of the book, in one string.
pub fn authors_from(names: &Vec<String>) -> (authors: String)
    ensures
        authors@ == authors_of(views(names@)),
{
    joined(names, AUTHOR_SEPARATOR)
}

/// The name of the series that the book belongs to.
pub fn series_name_from(links: &Vec<String>) -> (name: Option<String>)
    ensures
        view_of(name) == series_name_of(views(links@)),
{
    if links.len() > 0 {
        Some(links[0].clone())
    } else {
        None
    }
}

/// `text` without the characters that cannot stand in a decimal numeral.
pub fn keep_decimal_chars(text: &str) -> (kept: String)
    ensures
        kept@ == decimal_chars(text@),
{
    let chars = chars_of(text);
    let mut kept = String::new();
    let mut i: usize = 0;
    proof {
        reveal(Seq::filter);
        assert(chars@.take(0) =~= Seq::<char>::empty());
    }
    while i < chars.len()
        invariant
            i <= chars.len(),
            chars@ == text@,
            kept@ == decimal_chars(chars@.take(i as int)),
        decreases chars.len() - i,
    {
        let c = chars[i];
        proof {
            assert(chars@.take(i + 1) =~= chars@.take(i as int).push(c));
            chars@.take(i as int).lemma_filter_push(c, |c: char| is_decimal_char(c));
        }
        if digit(c) || c == '.' {
            push_char(&mut kept, c);
        }
        i += 1;
    }
    assert(chars@.take(i as int) =~= chars@);
    kept
}

/// The number of the book in its series.
pub fn series_index_from(prefixes: &Vec<String>) -> (index: Option<SeriesIndex>)
    ensures
        index matches Some(number) ==> number.wf(),
        match index {
            Some(number) => Some(number@),
            None => None,
        } == series_index_of(views(prefixes@)),
{
    if prefixes.len() > 0 {
        let kept = keep_decimal_chars(prefixes[0].as_str());
        SeriesIndex::parse(kept.as_str())
    } else {
        None
    }
}

/// The address of the cover image.
pub fn cover_url_from(addresses: &Vec<Option<String>>) -> (url: String)
    ensures
        url@ == cover_url_of(views_of(addresses@)),
{
    if addresses.len() > 0 {
        match &addresses[0] {
            Some(address) => {
                let small = chars_of(SMALL_COVER);
                let large = chars_of(LARGE_COVER);
                string_of(&replaced(&chars_of(address.as_str()), &small, &large))
            },
            None => String::new(),
        }
    } else {
        String::new()
    }
}

/// The synopsis of the book, as markup.
pub fn synopsis_from(blocks: &Vec<String>) -> (synopsis: String)
    ensures
        synopsis@ == synopsis_of(views(blocks@)),
{
    if blocks.len() > 0 {
        blocks[0].clone()
    } else {
        String::new()
    }
}

/// The tags of the book, in one string.
pub fn tags_from(tags: &Vec<String>) -> (joined_tags: String)
    ensures
        joined_tags@ == tags_of(views(tags@)),
{
    joined(&canonical_tags(tags), TAG_SEPARATOR)
}

/// The publisher of the book.
pub fn publisher_from(imprints: &Vec<String>, items: &Vec<String>) -> (publisher: String)
    ensures
        publisher@ == publisher_of(views(imprints@), views(items@)),
{
    if imprints.len() > 0 {
        imprints[0].clone()
    } else if items.len() > 0 {
        trimmed_string(&items[0])
    } else {
        String::new()
    }
}

/// The day on which the book was released, as year, month and day with
/// hyphens between them.
pub fn release_date_from(values: &Vec<String>) -> (date: String)
    ensures
        date@ == release_date_of(views(values@)),
{
    if values.len() == 0 {
        return String::new();
    }
    let chars = chars_of(values[0].as_str());
    let mut date = String::new();
    if chars.len() == 0 {
        assert(hyphenated(chars@) =~= Seq::<char>::empty());
        return date;
    }
    let end: usize = chars.len() - 1;
    let mut i: usize = 0;
    while i < end
        invariant
            i <= end,
            end == chars.len() - 1,
            date@ == hyphenated(chars@).take(i as int),
        decreases end - i,
    {
        let c = chars[i];
        if digit(c) {
            push_char(&mut date, c);
        } else {
            push_char(&mut date, '-');
        }
        assert(date@ =~= hyphenated(chars@).take(i + 1));
        i += 1;
    }
    assert(hyphenated(chars@).take(end as int) =~= hyphenated(chars@).drop_last());
    date
}

/// The languages that have a code, each with its code.
pub fn languages() -> (table: Vec<(String, String)>)
    ensures
        table_views(table@) == language_table(),
{
    let mut table: Vec<(String, String)> = Vec::new();
    table.push((String::from_str("中文"), String::from_str("zh")));
    table.push((String::from_str("英文"), String::from_str("en")));
    table.push((String::from_str("日文"), String::from_str("ja")));
    assert(table_views(table@) =~= language_table());
    table
}

/// The code that the table of languages has for `name`; empty where the
/// table does not have it.
pub fn language_code_for(name: &str) -> (code: String)
    ensures
        code@ == lookup(language_table(), name@),
{
    let wanted = String::from_str(name);
    let table = languages();
    let mut i: usize = 0;
    assert(table_views(table@).skip(0) =~= table_views(table@));
    while i < table.len()
        invariant
            i <= table.len(),
            wanted@ == name@,
            lookup(language_table(), name@) == lookup(table_views(table@).skip(i as int), name@),
        decreases table.len() - i,
    {
        assert(table_views(table@).skip(i as int)[0] == (table[i as int].0@, table[i as int].1@));
        if table[i].0 == wanted {
            return table[i].1.clone();
        }
        assert(table_views(table@).skip(i as int).skip(1) =~= table_views(table@).skip(i + 1));
        i += 1;
    }
    String::new()
}

/// The two-letter code of the language whose name the page gives.
pub fn language_code_from(values: &Vec<String>) -> (code: String)
    ensures
        code@ == language_code_of(views(values@)),
{
    if values.len() > 2 {
        language_code_for(values[2].as_str())
    } else {
        String::new()
    }
}

/// The ISBN of the book. It is taken as the page gives it.
pub fn isbn_from(values: &Vec<String>) -> (isbn: String)
    ensures
        isbn@ == isbn_of(views(values@)),
{
    if values.len() > 1 {
        values[1].clone()
    } else {
        String::new()
    }
}

/// Reads the title from a book page.
pub fn get_title(book_page: &scraper::Html) -> (title: String)
    ensures
        title@ == title_of(texts_in(*book_page, TITLE_SELECTOR@)),
{
    title_from(&select_texts(book_page, TITLE_SELECTOR))
}

/// Reads the subtitle from a book page.
pub fn get_subtitle(book_page: &scraper::Html) -> (subtitle: Option<String>)
    ensures
        view_of(subtitle) == subtitle_of(texts_in(*book_page, SUBTITLE_SELECTOR@)),
{
    subtitle_from(&select_texts(book_page, SUBTITLE_SELECTOR))
}

/// Reads the authors from a book page.
pub fn get_authors_str(book_page: &scraper::Html) -> (authors: String)
    ensures
        authors@ == authors_of(texts_in(*book_page, AUTHORS_SELECTOR@)),
{
    authors_from(&select_texts(book_page, AUTHORS_SELECTOR))
}

/// Reads the name of the series from a book page.
pub fn get_series_name(book_page: &scraper::Html) -> (name: Option<String>)
    ensures
        view_of(name) == series_name_of(texts_in(*book_page, SERIES_NAME_SELECTOR@)),
{
    series_name_from(&select_texts(book_page, SERIES_NAME_SELECTOR))
}

/// Reads the number of the book in its series from a book page.
pub fn get_series_index(book_page: &scraper::Html) -> (index: Option<SeriesIndex>)
    ensures
        index matches Some(number) ==> number.wf(),
        match index {
            Some(number) => Some(number@),
            None => None,
        } == series_index_of(texts_in(*book_page, SERIES_INDEX_SELECTOR@)),
{
    series_index_from(&select_texts(book_page, SERIES_INDEX_SELECTOR))
}

/// Reads the address of the cover image from a book page.
pub fn get_cover_url(book_page: &scraper::Html) -> (url: String)
    ensures
        url@ == cover_url_of(attributes_in(*book_page, COVER_SELECTOR@, COVER_ATTRIBUTE@)),
{
    cover_url_from(&select_attributes(book_page, COVER_SELECTOR, COVER_ATTRIBUTE))
}

/// Reads the synopsis from a book page.
pub fn get_synopsis_html(book_page: &scraper::Html) -> (synopsis: String)
    ensures
        synopsis@ == synopsis_of(markup_in(*book_page, SYNOPSIS_SELECTOR@)),
{
    synopsis_from(&select_markup(book_page, SYNOPSIS_SELECTOR))
}

/// Reads the tags from a book page.
pub fn get_tags_str(book_page: &scraper::Html) -> (tags: String)
    ensures
        tags@ == tags_of(texts_in(*book_page, TAGS_SELECTOR@)),
{
    tags_from(&select_texts(book_page, TAGS_SELECTOR))
}

/// Reads the publisher from a book page.
pub fn get_publisher(book_page: &scraper::Html) -> (publisher: String)
    ensures
        publisher@ == publisher_of(
            texts_in(*book_page, IMPRINT_SELECTOR@),
            texts_in(*book_page, DETAIL_ITEM_SELECTOR@),
        ),
{
    let imprints = select_texts(book_page, IMPRINT_SELECTOR);
    let items = select_texts(book_page, DETAIL_ITEM_SELECTOR);
    publisher_from(&imprints, &items)
}

/// Reads the release date from a book page.
pub fn get_release_date(book_page: &scraper::Html) -> (date: String)
    ensures
        date@ == release_date_of(texts_in(*book_page, DETAIL_VALUE_SELECTOR@)),
{
    release_date_from(&select_texts(book_page, DETAIL_VALUE_SELECTOR))
}

/// Reads the language code from a book page.
pub fn get_language_code(book_page: &scraper::Html) -> (code: String)
    ensures
        code@ == language_code_of(texts_in(*book_page, DETAIL_VALUE_SELECTOR@)),
{
    language_code_from(&select_texts(book_page, DETAIL_VALUE_SELECTOR))
}

/// Reads the ISBN from a book page.
pub fn get_isbn(book_page: &scraper::Html) -> (isbn: String)
    ensures
        isbn@ == isbn_of(texts_in(*book_page, DETAIL_VALUE_SELECTOR@)),
{
    isbn_from(&select_texts(book_page, DETAIL_VALUE_SELECTOR))
}

/// A text without a digit gives no number: whatever else it holds, what is
/// left of it is no numeral.
pub proof fn lemma_index_needs_a_digit(prefixes: Seq<Seq<char>>)
    requires
        prefixes.len() > 0 ==> forall|i: int|
            0 <= i < prefixes[0].len() ==> !is_digit(#[trigger] prefixes[0][i]),
    ensures
        series_index_of(prefixes) is None,
{
    if prefixes.len() > 0 {
        let text = prefixes[0];
        let keep = |c: char| is_decimal_char(c);
        let kept = decimal_chars(text);
        assert forall|k: int| 0 <= k < kept.len() implies #[trigger] kept[k] == '.' by {
            text.lemma_filter_pred(keep, k);
            assert(kept.contains(kept[k]));
            text.lemma_filter_contains_rev(keep, kept[k]);
            let i = choose|i: int| 0 <= i < text.len() && text[i] == kept[k];
            assert(!is_digit(text[i]));
        }
        if kept.len() > 0 {
            assert(kept[0] == '.');
            assert(whole_part(kept).len() == 0);
            if kept.len() > 1 {
                assert(fraction_part(kept)[0] == kept[1]);
                assert(!is_digit(fraction_part(kept)[0]));
            }
        }
        assert(!is_decimal(kept));
    }
}

/// The tags of a book do not depend on the order in which the page lists
/// them nor on how often it lists each: pages that list the same tags give
/// the same field.
pub proof fn lemma_tags_ignore_order(a: Seq<Seq<char>>, b: Seq<Seq<char>>)
    requires
        a.to_set() == b.to_set(),
    ensures
        tags_of(a) == tags_of(b),
{
    lemma_sorted_unique_ignores_order(a, b);
}

} // verus!
