//! The position of a book in its series: a non-negative decimal number, held
//! exactly and in one canonical notation.

use crate::text::{
    all_digits, chars_of, digit, index_of, is_digit, position_of, slice, string_of,
};
use vstd::prelude::*;

verus! {

/// The digits of `text` before its first point.
pub open spec fn whole_part(text: Seq<char>) -> Seq<char> {
    text.take(index_of(text, '.'))
}

/// What follows the first point of `text`; nothing where it has no point.
pub open spec fn fraction_part(text: Seq<char>) -> Seq<char> {
    if index_of(text, '.') < text.len() {
        text.skip(index_of(text, '.') + 1)
    } else {
        Seq::empty()
    }
}

/// `text` is a decimal numeral: digits, with at most one point among them,
/// before them or after them, and at least one digit.
pub open spec fn is_decimal(text: Seq<char>) -> bool {
    &&& all_digits(whole_part(text))
    &&& all_digits(fraction_part(text))
    &&& whole_part(text).len() + fraction_part(text).len() > 0
}

/// `digits` without its leading zeros.
pub open spec fn strip_leading_zeros(digits: Seq<char>) -> Seq<char>
    decreases digits.len(),
{
    if digits.len() > 0 && digits[0] == '0' {
        strip_leading_zeros(digits.skip(1))
    } else {
        digits
    }
}

/// `digits` without its trailing zeros.
pub open spec fn strip_trailing_zeros(digits: Seq<char>) -> Seq<char>
    decreases digits.len(),
{
    if digits.len() > 0 && digits.last() == '0' {
        strip_trailing_zeros(digits.drop_last())
    } else {
        digits
    }
}

/// The canonical digits before the point: no leading zero, but `0` itself.
pub open spec fn canonical_whole(text: Seq<char>) -> Seq<char> {
    let digits = strip_leading_zeros(whole_part(text));
    if digits.len() == 0 {
        seq!['0']
    } else {
        digits
    }
}

/// The canonical digits after the point: no trailing zero.
pub open spec fn canonical_fraction(text: Seq<char>) -> Seq<char> {
    strip_trailing_zeros(fraction_part(text))
}

/// The numeral with `whole` before the point and `fraction` after it; the
/// point is left out where `fraction` is empty.
pub open spec fn numeral(whole: Seq<char>, fraction: Seq<char>) -> Seq<char> {
    if fraction.len() == 0 {
        whole
    } else {
        whole + seq!['.'] + fraction
    }
}

/// What a decimal numeral denotes, in canonical notation; `None` for a text
/// that is no decimal numeral.
pub open spec fn parse_decimal(text: Seq<char>) -> Option<Seq<char>> {
    if is_decimal(text) {
        Some(numeral(canonical_whole(text), canonical_fraction(text)))
    } else {
        None
    }
}

/// A non-negative decimal number.
#[derive(Debug, PartialEq, Eq)]
pub struct SeriesIndex {
    whole: String,
    fraction: String,
}

impl View for SeriesIndex {
    type V = Seq<char>;

    /// The number in canonical notation.
    closed spec fn view(&self) -> Seq<char> {
        numeral(self.whole@, self.fraction@)
    }
}

impl SeriesIndex {
    /// The digits before the point.
    pub closed spec fn whole(&self) -> Seq<char> {
        self.whole@
    }

    /// The digits after the point.
    pub closed spec fn fraction(&self) -> Seq<char> {
        self.fraction@
    }

    /// The notation is canonical: at least one digit before the point and no
    /// needless zero on either side.
    pub open spec fn wf(&self) -> bool {
        &&& self@ == numeral(self.whole(), self.fraction())
        &&& all_digits(self.whole())
        &&& all_digits(self.fraction())
        &&& self.whole().len() > 0
        &&& self.whole().len() > 1 ==> self.whole()[0] != '0'
        &&& self.fraction().len() > 0 ==> self.fraction().last() != '0'
    }

    /// Reads a decimal numeral. Leading zeros before the point and trailing
    /// zeros after it do not count: `007.50` is `7.5`, `.5` is `0.5`, and
    /// `3.` is `3`.
    pub fn parse(text: &str) -> (index: Option<SeriesIndex>)
        ensures
            index is Some <==> is_decimal(text@),
            index matches Some(number) ==> {
                &&& number.wf()
                &&& number.whole() == canonical_whole(text@)
                &&& number.fraction() == canonical_fraction(text@)
                &&& Some(number@) == parse_decimal(text@)
            },
    {
        let chars = chars_of(text);
        let point = position_of(&chars, '.');
        let whole = slice(&chars, 0, point);
        let fraction = if point < chars.len() {
            slice(&chars, point + 1, chars.len())
        } else {
            Vec::new()
        };
        assert(whole@ =~= whole_part(text@));
        assert(fraction@ =~= fraction_part(text@));
        if !only_digits(&whole) || !only_digits(&fraction) || whole.len() + fraction.len() == 0 {
            return None;
        }
        let whole = without_leading_zeros(&whole);
        let fraction = without_trailing_zeros(&fraction);
        let whole = if whole.len() == 0 {
            let mut zero: Vec<char> = Vec::new();
            zero.push('0');
            assert(zero@ =~= seq!['0']);
            zero
        } else {
            whole
        };
        Some(SeriesIndex { whole: string_of(&whole), fraction: string_of(&fraction) })
    }

    /// The number in canonical notation.
    pub fn to_string(&self) -> (text: String)
        ensures
            text@ == self@,
    {
        let mut text = self.whole.clone();
        if self.fraction.as_str().unicode_len() > 0 {
            text.append(".");
            proof {
                reveal_strlit(".");
            }
            assert("."@ =~= seq!['.']);
            text.append(self.fraction.as_str());
        }
        text
    }
}

/// Whether `text` holds digits only.
fn only_digits(text: &Vec<char>) -> (all: bool)
    ensures
        all == all_digits(text@),
{
    let mut i: usize = 0;
    while i < text.len()
        invariant
            i <= text.len(),
            forall|k: int| 0 <= k < i ==> is_digit(#[trigger] text[k]),
        decreases text.len() - i,
    {
        if !digit(text[i]) {
            return false;
        }
        i += 1;
    }
    true
}

/// `digits` without its leading zeros.
fn without_leading_zeros(digits: &Vec<char>) -> (rest: Vec<char>)
    requires
        all_digits(digits@),
    ensures
        rest@ == strip_leading_zeros(digits@),
        all_digits(rest@),
        rest@.len() > 0 ==> rest@[0] != '0',
{
    let mut start: usize = 0;
    assert(digits@.skip(0) =~= digits@);
    while start < digits.len() && digits[start] == '0'
        invariant
            start <= digits.len(),
            strip_leading_zeros(digits@) == strip_leading_zeros(digits@.skip(start as int)),
        decreases digits.len() - start,
    {
        assert(digits@.skip(start as int).skip(1) =~= digits@.skip(start + 1));
        start += 1;
    }
    assert(digits@.skip(start as int) =~= digits@.subrange(start as int, digits.len() as int));
    slice(digits, start, digits.len())
}

/// `digits` without its trailing zeros.
fn without_trailing_zeros(digits: &Vec<char>) -> (rest: Vec<char>)
    requires
        all_digits(digits@),
    ensures
        rest@ == strip_trailing_zeros(digits@),
        all_digits(rest@),
        rest@.len() > 0 ==> rest@.last() != '0',
{
    let mut end: usize = digits.len();
    assert(digits@.take(end as int) =~= digits@);
    while end > 0 && digits[end - 1] == '0'
        invariant
            end <= digits.len(),
            strip_trailing_zeros(digits@) == strip_trailing_zeros(digits@.take(end as int)),
        decreases end,
    {
        assert(digits@.take(end as int).drop_last() =~= digits@.take(end - 1));
        end -= 1;
    }
    assert(digits@.take(end as int) =~= digits@.subrange(0, end as int));
    slice(digits, 0, end)
}

/// Behind a run of characters that are not `c`, the first `c` stands where
/// it stands in the rest, moved by the length of the run.
proof fn lemma_index_of_after(run: Seq<char>, rest: Seq<char>, c: char)
    requires
        forall|i: int| 0 <= i < run.len() ==> run[i] != c,
    ensures
        index_of(run + rest, c) == run.len() + index_of(rest, c),
    decreases run.len(),
{
    if run.len() == 0 {
        assert(run + rest =~= rest);
    } else {
        assert((run + rest)[0] == run[0]);
        assert((run + rest).skip(1) =~= run.skip(1) + rest);
        assert forall|i: int| 0 <= i < run.skip(1).len() implies run.skip(1)[i] != c by {
            assert(run.skip(1)[i] == run[i + 1]);
        }
        lemma_index_of_after(run.skip(1), rest, c);
    }
}

/// Canonical notation is stable: read as a numeral, the notation of a
/// number gives that number in the same notation.
pub proof fn lemma_canonical_numeral_reads_back(number: SeriesIndex)
    requires
        number.wf(),
    ensures
        is_decimal(number@),
        canonical_whole(number@) == number.whole(),
        canonical_fraction(number@) == number.fraction(),
        parse_decimal(number@) == Some(number@),
{
    let whole = number.whole();
    let fraction = number.fraction();
    let text = number@;
    assert forall|i: int| 0 <= i < whole.len() implies whole[i] != '.' by {
        assert(is_digit(whole[i]));
    }
    if fraction.len() == 0 {
        lemma_index_of_after(whole, Seq::empty(), '.');
        assert(whole + Seq::<char>::empty() =~= whole);
        assert(whole_part(text) =~= whole);
        assert(fraction_part(text) =~= fraction);
    } else {
        let rest = seq!['.'] + fraction;
        lemma_index_of_after(whole, rest, '.');
        assert(text =~= whole + rest);
        assert(whole_part(text) =~= whole);
        assert(fraction_part(text) =~= fraction);
    }
    if whole[0] == '0' {
        assert(whole.skip(1) =~= Seq::<char>::empty());
        assert(strip_leading_zeros(whole.skip(1)).len() == 0);
        assert(strip_leading_zeros(whole).len() == 0);
        assert(whole =~= seq!['0']);
    } else {
        assert(strip_leading_zeros(whole) == whole);
    }
    assert(strip_trailing_zeros(fraction) == fraction);
}

} // verus!
