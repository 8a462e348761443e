//! Text as sequences of characters: the searches and rewrites that the
//! identifier and field rules are built from.

use vstd::prelude::*;

verus! {

/// Whether `c` is white space: whether it has the Unicode property
/// White_Space. These are the characters that have it: the controls from
/// tab to carriage return, the space, the next-line control, the no-break
/// space, the Ogham space mark, the spaces from en quad to hair space, the
/// line and the paragraph separator, the narrow no-break space, the medium
/// mathematical space and the ideographic space.
pub open spec fn is_whitespace(c: char) -> bool {
    ||| '\u{9}' <= c && c <= '\u{d}'
    ||| c == '\u{20}'
    ||| c == '\u{85}'
    ||| c == '\u{a0}'
    ||| c == '\u{1680}'
    ||| '\u{2000}' <= c && c <= '\u{200a}'
    ||| c == '\u{2028}'
    ||| c == '\u{2029}'
    ||| c == '\u{202f}'
    ||| c == '\u{205f}'
    ||| c == '\u{3000}'
}

/// Calls `char::is_whitespace`. Trusted: it tells whether the character has
/// the Unicode property White_Space, which [`is_whitespace`] spells out.
#[verifier::external_body]
pub(crate) fn whitespace(c: char) -> (b: bool)
    ensures
        b == is_whitespace(c),
{
    c.is_whitespace()
}

/// Calls `String::push`. Trusted: the character is appended at the end and
/// the rest of the string is unchanged.
#[verifier::external_body]
pub(crate) fn push_char(text: &mut String, c: char)
    ensures
        final(text)@ == old(text)@.push(c),
{
    text.push(c)
}

/// Whether `c` is one of the ten ASCII digits.
pub open spec fn is_digit(c: char) -> bool {
    '0' <= c && c <= '9'
}

/// Every character of `text` is an ASCII digit.
pub open spec fn all_digits(text: Seq<char>) -> bool {
    forall|i: int| 0 <= i < text.len() ==> is_digit(#[trigger] text[i])
}

/// The position of the first `c` in `text`, or the length of `text` where
/// there is none.
pub open spec fn index_of(text: Seq<char>, c: char) -> int
    decreases text.len(),
{
    if text.len() == 0 || text[0] == c {
        0
    } else {
        1 + index_of(text.skip(1), c)
    }
}

/// The views of a list of strings, in order.
pub open spec fn views(texts: Seq<String>) -> Seq<Seq<char>> {
    texts.map_values(|text: String| text@)
}

/// The view of a string that may be absent.
pub open spec fn view_of(text: Option<String>) -> Option<Seq<char>> {
    match text {
        Some(text) => Some(text@),
        None => None,
    }
}

/// The views of a list of strings that may be absent, in order.
pub open spec fn views_of(texts: Seq<Option<String>>) -> Seq<Option<Seq<char>>> {
    texts.map_values(|text: Option<String>| view_of(text))
}

/// `needle` stands in `hay` at position `at`.
pub open spec fn occurs_at(hay: Seq<char>, needle: Seq<char>, at: int) -> bool {
    &&& 0 <= at
    &&& at + needle.len() <= hay.len()
    &&& hay.subrange(at, at + needle.len()) == needle
}

/// `needle` stands somewhere in `hay`.
pub open spec fn is_infix(needle: Seq<char>, hay: Seq<char>) -> bool {
    exists|at: int| occurs_at(hay, needle, at)
}

/// The position of the last `c` in `text`, or -1 where there is none.
pub open spec fn last_index_of(text: Seq<char>, c: char) -> int
    decreases text.len(),
{
    if text.len() == 0 {
        -1
    } else if text.last() == c {
        text.len() - 1
    } else {
        last_index_of(text.drop_last(), c)
    }
}

/// What follows the last `c` in `text`; all of `text` where it holds no `c`.
pub open spec fn after_last(text: Seq<char>, c: char) -> Seq<char> {
    text.skip(last_index_of(text, c) + 1)
}

/// `text` without its leading white space.
pub open spec fn trim_start(text: Seq<char>) -> Seq<char>
    decreases text.len(),
{
    if text.len() > 0 && is_whitespace(text[0]) {
        trim_start(text.skip(1))
    } else {
        text
    }
}

/// `text` without its trailing white space.
pub open spec fn trim_end(text: Seq<char>) -> Seq<char>
    decreases text.len(),
{
    if text.len() > 0 && is_whitespace(text.last()) {
        trim_end(text.drop_last())
    } else {
        text
    }
}

/// `text` without its leading and trailing white space.
pub open spec fn trim(text: Seq<char>) -> Seq<char> {
    trim_end(trim_start(text))
}

/// Every character of `text` is white space.
pub open spec fn all_whitespace(text: Seq<char>) -> bool {
    forall|i: int| 0 <= i < text.len() ==> is_whitespace(#[trigger] text[i])
}

/// `text` with every non-overlapping occurrence of `from`, taken from the
/// left, replaced by `to`. An empty `from` leaves `text` as it is.
pub open spec fn replace_all(text: Seq<char>, from: Seq<char>, to: Seq<char>) -> Seq<char>
    decreases text.len(),
{
    if from.len() == 0 || text.len() == 0 {
        text
    } else if occurs_at(text, from, 0) {
        to + replace_all(text.skip(from.len() as int), from, to)
    } else {
        seq![text[0]] + replace_all(text.skip(1), from, to)
    }
}

/// The parts in order, with `separator` between each two neighbours.
pub open spec fn join(parts: Seq<Seq<char>>, separator: Seq<char>) -> Seq<char>
    decreases parts.len(),
{
    if parts.len() == 0 {
        Seq::empty()
    } else if parts.len() == 1 {
        parts[0]
    } else {
        join(parts.drop_last(), separator) + separator + parts.last()
    }
}

/// Whether `c` is one of the ten ASCII digits.
pub fn digit(c: char) -> (b: bool)
    ensures
        b == is_digit(c),
{
    '0' <= c && c <= '9'
}

/// The position of the first `c` in `text`, or the length of `text`.
pub fn position_of(text: &Vec<char>, c: char) -> (at: usize)
    ensures
        at == index_of(text@, c),
        at <= text.len(),
{
    let mut at: usize = 0;
    assert(text@.skip(0) =~= text@);
    while at < text.len() && text[at] != c
        invariant
            at <= text.len(),
            index_of(text@, c) == at + index_of(text@.skip(at as int), c),
        decreases text.len() - at,
    {
        assert(text@.skip(at as int).skip(1) =~= text@.skip(at + 1));
        at += 1;
    }
    at
}

/// The characters of `text`.
pub fn chars_of(text: &str) -> (chars: Vec<char>)
    ensures
        chars@ == text@,
{
    let mut chars: Vec<char> = Vec::new();
    for c in it: text.chars()
        invariant
            chars@ == it.seq().take(it.index() as int),
    {
        chars.push(c);
    }
    chars
}

/// The string made of `chars`.
pub fn string_of(chars: &Vec<char>) -> (text: String)
    ensures
        text@ == chars@,
{
    let mut text = String::new();
    let mut i: usize = 0;
    while i < chars.len()
        invariant
            i <= chars.len(),
            text@ == chars@.take(i as int),
        decreases chars.len() - i,
    {
        push_char(&mut text, chars[i]);
        i += 1;
    }
    text
}

/// The characters of `text` from `start` up to, not including, `end`.
pub fn slice(text: &Vec<char>, start: usize, end: usize) -> (part: Vec<char>)
    requires
        start <= end <= text.len(),
    ensures
        part@ == text@.subrange(start as int, end as int),
{
    let mut part: Vec<char> = Vec::new();
    let mut i: usize = start;
    while i < end
        invariant
            start <= i <= end <= text.len(),
            part@ == text@.subrange(start as int, i as int),
        decreases end - i,
    {
        part.push(text[i]);
        i += 1;
    }
    part
}

/// Whether `needle` stands in `hay` at position `at`.
pub fn matches_at(hay: &Vec<char>, needle: &Vec<char>, at: usize) -> (found: bool)
    ensures
        found == occurs_at(hay@, needle@, at as int),
{
    if needle.len() > hay.len() || at > hay.len() - needle.len() {
        return false;
    }
    let mut k: usize = 0;
    while k < needle.len()
        invariant
            k <= needle.len(),
            at + needle.len() <= hay.len(),
            forall|j: int| 0 <= j < k ==> hay[at + j] == needle[j],
        decreases needle.len() - k,
    {
        if hay[at + k] != needle[k] {
            assert(hay@.subrange(at as int, at + needle.len())[k as int] == hay[at + k]);
            return false;
        }
        k += 1;
    }
    assert(hay@.subrange(at as int, at + needle.len()) =~= needle@);
    true
}

/// Whether `needle` stands somewhere in `hay`.
pub fn contains(hay: &Vec<char>, needle: &Vec<char>) -> (found: bool)
    ensures
        found == is_infix(needle@, hay@),
{
    if needle.len() == 0 {
        assert(hay@.subrange(0, 0) =~= needle@);
        assert(occurs_at(hay@, needle@, 0));
        return true;
    }
    let mut at: usize = 0;
    while at < hay.len()
        invariant
            at <= hay.len(),
            needle.len() > 0,
            forall|k: int| 0 <= k < at ==> !occurs_at(hay@, needle@, k),
        decreases hay.len() - at,
    {
        if matches_at(hay, needle, at) {
            return true;
        }
        at += 1;
    }
    false
}

/// What follows the last `separator` in `text`.
pub fn part_after_last(text: &Vec<char>, separator: char) -> (part: Vec<char>)
    ensures
        part@ == after_last(text@, separator),
{
    let mut start: usize = text.len();
    assert(text@.take(start as int) =~= text@);
    while start > 0 && text[start - 1] != separator
        invariant
            start <= text.len(),
            last_index_of(text@, separator) == last_index_of(text@.take(start as int), separator),
        decreases start,
    {
        proof {
            let head = text@.take(start as int);
            assert(head.last() == text[start - 1]);
            assert(head.drop_last() =~= text@.take(start - 1));
        }
        start -= 1;
    }
    proof {
        let head = text@.take(start as int);
        if start > 0 {
            assert(head.last() == text[start - 1]);
        }
        assert(last_index_of(head, separator) == start - 1);
    }
    slice(text, start, text.len())
}

/// `text` without its leading and trailing white space.
pub fn trimmed(text: &Vec<char>) -> (part: Vec<char>)
    ensures
        part@ == trim(text@),
{
    let mut start: usize = 0;
    assert(text@.skip(0) =~= text@);
    while start < text.len() && whitespace(text[start])
        invariant
            start <= text.len(),
            trim_start(text@) == trim_start(text@.skip(start as int)),
        decreases text.len() - start,
    {
        assert(text@.skip(start as int).skip(1) =~= text@.skip(start + 1));
        start += 1;
    }
    let mut end: usize = text.len();
    assert(text@.skip(start as int) =~= text@.subrange(start as int, end as int));
    while end > start && whitespace(text[end - 1])
        invariant
            start <= end <= text.len(),
            trim(text@) == trim_end(text@.subrange(start as int, end as int)),
        decreases end,
    {
        assert(text@.subrange(start as int, end as int).drop_last() =~= text@.subrange(
            start as int,
            end - 1,
        ));
        end -= 1;
    }
    slice(text, start, end)
}

/// `text` with every occurrence of `from` replaced by `to`.
pub fn replaced(text: &Vec<char>, from: &Vec<char>, to: &Vec<char>) -> (out: Vec<char>)
    ensures
        out@ == replace_all(text@, from@, to@),
{
    let mut out: Vec<char> = Vec::new();
    if from.len() == 0 {
        return slice(text, 0, text.len());
    }
    let mut at: usize = 0;
    assert(text@.skip(0) =~= text@);
    while at < text.len()
        invariant
            at <= text.len(),
            from.len() > 0,
            replace_all(text@, from@, to@) == out@ + replace_all(
                text@.skip(at as int),
                from@,
                to@,
            ),
        decreases text.len() - at,
    {
        let ghost rest = text@.skip(at as int);
        let ghost before = out@;
        if matches_at(text, from, at) {
            assert(rest.subrange(0, from.len() as int) =~= text@.subrange(
                at as int,
                at + from.len(),
            ));
            assert(rest.skip(from.len() as int) =~= text@.skip(at + from.len()));
            let mut k: usize = 0;
            while k < to.len()
                invariant
                    k <= to.len(),
                    out@ == before + to@.take(k as int),
                decreases to.len() - k,
            {
                out.push(to[k]);
                k += 1;
            }
            assert(to@.take(to.len() as int) =~= to@);
            assert(out@ + replace_all(rest.skip(from.len() as int), from@, to@) =~= before + (to@
                + replace_all(rest.skip(from.len() as int), from@, to@)));
            at += from.len();
        } else {
            proof {
                if at + from.len() <= text.len() {
                    assert(rest.subrange(0, from.len() as int) =~= text@.subrange(
                        at as int,
                        at + from.len(),
                    ));
                }
            }
            assert(rest.skip(1) =~= text@.skip(at + 1));
            out.push(text[at]);
            assert(out@ + replace_all(rest.skip(1), from@, to@) =~= before + (seq![rest[0]]
                + replace_all(rest.skip(1), from@, to@)));
            at += 1;
        }
    }
    assert(text@.skip(at as int) =~= Seq::<char>::empty());
    out
}

/// The strings of `parts` in order, with `separator` between each two.
pub fn joined(parts: &Vec<String>, separator: &str) -> (out: String)
    ensures
        out@ == join(views(parts@), separator@),
{
    let mut out = String::new();
    let mut i: usize = 0;
    assert(views(parts@).take(0) =~= Seq::<Seq<char>>::empty());
    while i < parts.len()
        invariant
            i <= parts.len(),
            out@ == join(views(parts@).take(i as int), separator@),
        decreases parts.len() - i,
    {
        let ghost next = views(parts@).take(i + 1);
        assert(next.drop_last() =~= views(parts@).take(i as int));
        assert(next.last() == parts[i as int]@);
        if i > 0 {
            out.append(separator);
        }
        out.append(parts[i].as_str());
        assert(out@ =~= join(next, separator@));
        i += 1;
    }
    assert(views(parts@).take(parts.len() as int) =~= views(parts@));
    out
}

/// Whether `text` is one of `texts`.
pub fn holds(texts: &Vec<String>, text: &String) -> (found: bool)
    ensures
        found == views(texts@).to_set().contains(text@),
{
    let mut i: usize = 0;
    while i < texts.len()
        invariant
            i <= texts.len(),
            forall|k: int| 0 <= k < i ==> (#[trigger] texts[k])@ != text@,
        decreases texts.len() - i,
    {
        if texts[i] == *text {
            assert(views(texts@)[i as int] == text@);
            return true;
        }
        i += 1;
    }
    assert forall|k: int| 0 <= k < views(texts@).len() implies views(texts@)[k] != text@ by {
        assert(views(texts@)[k] == texts[k]@);
    }
    false
}

/// A text is white space throughout exactly when trimming leaves nothing.
pub proof fn lemma_trim_empty(text: Seq<char>)
    ensures
        trim(text).len() == 0 <==> all_whitespace(text),
    decreases text.len(),
{
    lemma_trim_start_shape(text);
    let rest = trim_start(text);
    lemma_trim_end_shape(rest);
    let lead = text.len() - rest.len();
    if all_whitespace(text) {
        if rest.len() > 0 {
            assert(rest[0] == text[lead]);
        }
    } else {
        let i = choose|i: int| 0 <= i < text.len() && !is_whitespace(#[trigger] text[i]);
        assert(i >= lead);
        assert(rest[i - lead] == text[i]);
        if trim_end(rest).len() <= i - lead {
            assert(is_whitespace(rest[i - lead]));
        }
    }
}

/// Trimming at the start drops a run of white space and nothing else.
pub proof fn lemma_trim_start_shape(text: Seq<char>)
    ensures
        trim_start(text).len() <= text.len(),
        trim_start(text) == text.skip(text.len() - trim_start(text).len()),
        forall|i: int|
            0 <= i < text.len() - trim_start(text).len() ==> is_whitespace(#[trigger] text[i]),
        trim_start(text).len() > 0 ==> !is_whitespace(trim_start(text)[0]),
    decreases text.len(),
{
    if text.len() > 0 && is_whitespace(text[0]) {
        let rest = text.skip(1);
        lemma_trim_start_shape(rest);
        let kept = trim_start(rest);
        assert(kept =~= text.skip(text.len() - kept.len()));
        assert forall|i: int| 0 <= i < text.len() - kept.len() implies is_whitespace(
            #[trigger] text[i],
        ) by {
            if i > 0 {
                assert(rest[i - 1] == text[i]);
            }
        }
    } else {
        assert(text =~= text.skip(0));
    }
}

/// Trimming at the end drops a run of white space and nothing else.
pub proof fn lemma_trim_end_shape(text: Seq<char>)
    ensures
        trim_end(text).len() <= text.len(),
        trim_end(text) == text.take(trim_end(text).len() as int),
        forall|i: int| trim_end(text).len() <= i < text.len() ==> is_whitespace(#[trigger] text[i]),
        trim_end(text).len() > 0 ==> !is_whitespace(trim_end(text).last()),
    decreases text.len(),
{
    if text.len() > 0 && is_whitespace(text.last()) {
        let rest = text.drop_last();
        lemma_trim_end_shape(rest);
        let kept = trim_end(rest);
        assert(kept =~= text.take(kept.len() as int));
        assert forall|i: int| kept.len() <= i < text.len() implies is_whitespace(
            #[trigger] text[i],
        ) by {
            if i < text.len() - 1 {
                assert(rest[i] == text[i]);
            }
        }
    } else {
        assert(text =~= text.take(text.len() as int));
    }
}

} // verus!
