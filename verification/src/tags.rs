//! Tags in canonical form: in ascending order, each one once.

use crate::text::{chars_of, string_of, views};
use vstd::prelude::*;

verus! {

/// `a` comes before `b` in the order of `str`: at the first place where
/// the two differ `a` has the lower character, or `a` ends there and `b`
/// goes on.
pub open spec fn lex_less(a: Seq<char>, b: Seq<char>) -> bool
    decreases a.len(),
{
    if b.len() == 0 {
        false
    } else if a.len() == 0 {
        true
    } else if a[0] != b[0] {
        a[0] < b[0]
    } else {
        lex_less(a.skip(1), b.skip(1))
    }
}

/// `texts` is in ascending order and holds nothing twice.
pub open spec fn strictly_ascending(texts: Seq<Seq<char>>) -> bool {
    forall|i: int, j: int| 0 <= i < j < texts.len() ==> lex_less(texts[i], texts[j])
}

/// `canonical` is `texts` put in order, with each text kept once.
pub open spec fn is_sorted_unique(canonical: Seq<Seq<char>>, texts: Seq<Seq<char>>) -> bool {
    &&& strictly_ascending(canonical)
    &&& canonical.to_set() == texts.to_set()
}

/// `texts` put in ascending order, with each text kept once.
pub open spec fn sorted_unique(texts: Seq<Seq<char>>) -> Seq<Seq<char>> {
    choose|canonical: Seq<Seq<char>>| is_sorted_unique(canonical, texts)
}

/// The views of a list of character vectors, in order.
pub open spec fn char_views(texts: Seq<Vec<char>>) -> Seq<Seq<char>> {
    texts.map_values(|text: Vec<char>| text@)
}

/// No text comes before itself.
pub proof fn lemma_lex_irreflexive(a: Seq<char>)
    ensures
        !lex_less(a, a),
    decreases a.len(),
{
    if a.len() > 0 {
        lemma_lex_irreflexive(a.skip(1));
    }
}

/// What comes before a text comes before all that the text comes before.
pub proof fn lemma_lex_transitive(a: Seq<char>, b: Seq<char>, c: Seq<char>)
    requires
        lex_less(a, b),
        lex_less(b, c),
    ensures
        lex_less(a, c),
    decreases a.len(),
{
    if a.len() > 0 && a[0] == b[0] && b[0] == c[0] {
        lemma_lex_transitive(a.skip(1), b.skip(1), c.skip(1));
    }
}

/// Of two different texts one comes before the other.
pub proof fn lemma_lex_total(a: Seq<char>, b: Seq<char>)
    ensures
        a == b || lex_less(a, b) || lex_less(b, a),
    decreases a.len(),
{
    if a.len() > 0 && b.len() > 0 && a[0] == b[0] {
        lemma_lex_total(a.skip(1), b.skip(1));
        if a.skip(1) == b.skip(1) {
            assert(a =~= seq![a[0]] + a.skip(1));
            assert(b =~= seq![b[0]] + b.skip(1));
        }
    } else if a.len() == 0 && b.len() == 0 {
        assert(a =~= b);
    }
}

/// The last text of a list in ascending order comes after all the others,
/// and the others are what the list holds besides it.
proof fn lemma_ascending_last(texts: Seq<Seq<char>>)
    requires
        strictly_ascending(texts),
        texts.len() > 0,
    ensures
        strictly_ascending(texts.drop_last()),
        texts.drop_last().to_set() == texts.to_set().remove(texts.last()),
        forall|text: Seq<char>|
            texts.to_set().contains(text) ==> text == texts.last() || lex_less(text, texts.last()),
{
    let head = texts.drop_last();
    let last = texts.last();
    assert forall|text: Seq<char>| head.to_set().contains(text) <==> texts.to_set().remove(
        last,
    ).contains(text) by {
        if head.to_set().contains(text) {
            let i = choose|i: int| 0 <= i < head.len() && head[i] == text;
            assert(texts[i] == text);
            assert(lex_less(texts[i], texts[texts.len() - 1]));
            lemma_lex_irreflexive(last);
        }
        if texts.to_set().remove(last).contains(text) {
            let i = choose|i: int| 0 <= i < texts.len() && texts[i] == text;
            assert(head[i] == text);
        }
    }
    assert(head.to_set() =~= texts.to_set().remove(last));
    assert forall|text: Seq<char>| texts.to_set().contains(text) implies text == last || lex_less(
        text,
        last,
    ) by {
        let i = choose|i: int| 0 <= i < texts.len() && texts[i] == text;
        if i < texts.len() - 1 {
            assert(lex_less(texts[i], texts[texts.len() - 1]));
        }
    }
}

/// There is one way to put texts in order and keep each once: two lists in
/// ascending order that hold the same texts are the same list.
pub proof fn lemma_sorted_unique_is_unique(a: Seq<Seq<char>>, b: Seq<Seq<char>>)
    requires
        strictly_ascending(a),
        strictly_ascending(b),
        a.to_set() == b.to_set(),
    ensures
        a == b,
    decreases a.len(),
{
    if a.len() == 0 {
        if b.len() > 0 {
            assert(b.to_set().contains(b[0]));
            let i = choose|i: int| 0 <= i < a.len() && a[i] == b[0];
        }
        assert(a =~= b);
    } else {
        assert(a.to_set().contains(a.last()));
        if b.len() == 0 {
            let i = choose|i: int| 0 <= i < b.len() && b[i] == a.last();
        }
        assert(b.to_set().contains(b.last()));
        lemma_ascending_last(a);
        lemma_ascending_last(b);
        if a.last() != b.last() {
            if lex_less(a.last(), b.last()) {
                lemma_lex_transitive(a.last(), b.last(), a.last());
            } else {
                lemma_lex_transitive(b.last(), a.last(), b.last());
            }
            lemma_lex_irreflexive(a.last());
            lemma_lex_irreflexive(b.last());
        }
        lemma_sorted_unique_is_unique(a.drop_last(), b.drop_last());
        assert(a =~= a.drop_last().push(a.last()));
        assert(b =~= b.drop_last().push(b.last()));
    }
}

/// `sorted` with `text` put in at its place, unless `sorted` holds it.
spec fn with_text(sorted: Seq<Seq<char>>, text: Seq<char>) -> Seq<Seq<char>>
    decreases sorted.len(),
{
    if sorted.len() == 0 || lex_less(sorted.last(), text) {
        sorted.push(text)
    } else if sorted.last() == text {
        sorted
    } else {
        with_text(sorted.drop_last(), text).push(sorted.last())
    }
}

/// Putting a text into a list in ascending order keeps the order, and adds
/// the text to what the list holds.
proof fn lemma_with_text(sorted: Seq<Seq<char>>, text: Seq<char>)
    requires
        strictly_ascending(sorted),
    ensures
        strictly_ascending(with_text(sorted, text)),
        with_text(sorted, text).to_set() == sorted.to_set().insert(text),
    decreases sorted.len(),
{
    let result = with_text(sorted, text);
    if sorted.len() == 0 || lex_less(sorted.last(), text) {
        assert forall|i: int, j: int| 0 <= i < j < result.len() implies lex_less(
            result[i],
            result[j],
        ) by {
            if j == sorted.len() {
                assert(result[i] == sorted[i]);
                if i < sorted.len() - 1 {
                    assert(lex_less(sorted[i], sorted[sorted.len() - 1]));
                    lemma_lex_transitive(sorted[i], sorted.last(), text);
                }
            } else {
                assert(lex_less(sorted[i], sorted[j]));
            }
        }
        sorted.lemma_push_to_set_commute(text);
    } else if sorted.last() == text {
        assert(sorted.to_set().contains(sorted[sorted.len() - 1]));
        assert(sorted.to_set().insert(text) =~= sorted.to_set());
    } else {
        let head = sorted.drop_last();
        let last = sorted.last();
        lemma_ascending_last(sorted);
        lemma_with_text(head, text);
        lemma_lex_total(text, last);
        let inner = with_text(head, text);
        assert forall|i: int, j: int| 0 <= i < j < result.len() implies lex_less(
            result[i],
            result[j],
        ) by {
            if j == inner.len() {
                assert(inner.to_set().contains(inner[i]));
                if inner[i] != text {
                    assert(head.to_set().contains(inner[i]));
                    assert(sorted.to_set().contains(inner[i]));
                }
            } else {
                assert(lex_less(inner[i], inner[j]));
            }
        }
        inner.lemma_push_to_set_commute(last);
        assert(sorted.to_set().contains(sorted[sorted.len() - 1]));
        assert(result.to_set() =~= sorted.to_set().insert(text));
    }
}

/// Every list of texts has a canonical form: [`sorted_unique`] is in
/// ascending order and holds what the list holds.
pub proof fn lemma_sorted_unique_exists(texts: Seq<Seq<char>>)
    ensures
        is_sorted_unique(sorted_unique(texts), texts),
    decreases texts.len(),
{
    if texts.len() == 0 {
        let none = Seq::<Seq<char>>::empty();
        assert(none.to_set() =~= texts.to_set());
        assert(is_sorted_unique(none, texts));
    } else {
        let head = texts.drop_last();
        lemma_sorted_unique_exists(head);
        lemma_with_text(sorted_unique(head), texts.last());
        let found = with_text(sorted_unique(head), texts.last());
        assert(texts =~= head.push(texts.last()));
        head.lemma_push_to_set_commute(texts.last());
        assert(is_sorted_unique(found, texts));
    }
}

/// The canonical form does not depend on the order of the texts nor on how
/// often each one occurs: lists that hold the same texts have the same
/// canonical form.
pub proof fn lemma_sorted_unique_ignores_order(a: Seq<Seq<char>>, b: Seq<Seq<char>>)
    requires
        a.to_set() == b.to_set(),
    ensures
        sorted_unique(a) == sorted_unique(b),
{
    lemma_sorted_unique_exists(a);
    lemma_sorted_unique_exists(b);
    lemma_sorted_unique_is_unique(sorted_unique(a), sorted_unique(b));
}

/// Whether `a` comes before `b`.
pub fn less(a: &Vec<char>, b: &Vec<char>) -> (before: bool)
    ensures
        before == lex_less(a@, b@),
{
    let mut i: usize = 0;
    assert(a@.skip(0) =~= a@);
    assert(b@.skip(0) =~= b@);
    while i < a.len() && i < b.len() && a[i] == b[i]
        invariant
            i <= a.len(),
            i <= b.len(),
            lex_less(a@, b@) == lex_less(a@.skip(i as int), b@.skip(i as int)),
        decreases a.len() - i,
    {
        assert(a@.skip(i as int).skip(1) =~= a@.skip(i + 1));
        assert(b@.skip(i as int).skip(1) =~= b@.skip(i + 1));
        i += 1;
    }
    if i >= b.len() {
        false
    } else if i >= a.len() {
        true
    } else {
        a[i] < b[i]
    }
}

/// Puts `text` into `sorted` at its place, unless `sorted` holds it already.
fn insert_unique(sorted: &mut Vec<Vec<char>>, text: Vec<char>)
    requires
        strictly_ascending(char_views(old(sorted)@)),
    ensures
        strictly_ascending(char_views(final(sorted)@)),
        char_views(final(sorted)@).to_set() == char_views(old(sorted)@).to_set().insert(text@),
{
    let ghost before = char_views(sorted@);
    let mut at: usize = 0;
    while at < sorted.len() && less(&sorted[at], &text)
        invariant
            at <= sorted.len(),
            char_views(sorted@) == before,
            forall|k: int| 0 <= k < at ==> lex_less(#[trigger] before[k], text@),
        decreases sorted.len() - at,
    {
        assert(before[at as int] == sorted[at as int]@);
        at += 1;
    }
    if at < sorted.len() && !less(&text, &sorted[at]) {
        proof {
            assert(before[at as int] == sorted[at as int]@);
            lemma_lex_total(text@, before[at as int]);
            assert(before.to_set().contains(before[at as int]));
            assert(before.to_set().insert(text@) =~= before.to_set());
        }
    } else {
        sorted.insert(at, text);
        proof {
            let after = char_views(sorted@);
            assert(after =~= before.insert(at as int, text@));
            assert forall|i: int, j: int| 0 <= i < j < after.len() implies lex_less(
                after[i],
                after[j],
            ) by {
                if j < at {
                    assert(lex_less(before[i], before[j]));
                } else if j == at {
                    assert(lex_less(before[i], text@));
                } else if i == at {
                    assert(lex_less(text@, before[at as int]));
                    if j - 1 > at {
                        assert(lex_less(before[at as int], before[j - 1]));
                        lemma_lex_transitive(text@, before[at as int], before[j - 1]);
                    }
                } else if i < at {
                    assert(lex_less(before[i], before[j - 1]));
                } else {
                    assert(lex_less(before[i - 1], before[j - 1]));
                }
            }
            assert forall|other: Seq<char>| after.to_set().contains(other)
                <==> before.to_set().insert(text@).contains(other) by {
                if after.to_set().contains(other) {
                    let i = choose|i: int| 0 <= i < after.len() && after[i] == other;
                    if i < at {
                        assert(before[i] == other);
                    } else if i > at {
                        assert(before[i - 1] == other);
                    }
                }
                if before.to_set().contains(other) {
                    let i = choose|i: int| 0 <= i < before.len() && before[i] == other;
                    if i < at {
                        assert(after[i] == other);
                    } else {
                        assert(after[i + 1] == other);
                    }
                }
                if other == text@ {
                    assert(after[at as int] == other);
                }
            }
            assert(after.to_set() =~= before.to_set().insert(text@));
        }
    }
}

/// The texts in ascending order, each one once, whatever their order and
/// however often each occurs in `texts`.
pub fn canonical_tags(texts: &Vec<String>) -> (canonical: Vec<String>)
    ensures
        strictly_ascending(views(canonical@)),
        views(canonical@).to_set() == views(texts@).to_set(),
        views(canonical@) == sorted_unique(views(texts@)),
{
    let mut sorted: Vec<Vec<char>> = Vec::new();
    let mut i: usize = 0;
    assert(views(texts@).take(0).to_set() =~= char_views(sorted@).to_set());
    while i < texts.len()
        invariant
            i <= texts.len(),
            strictly_ascending(char_views(sorted@)),
            char_views(sorted@).to_set() == views(texts@).take(i as int).to_set(),
        decreases texts.len() - i,
    {
        insert_unique(&mut sorted, chars_of(texts[i].as_str()));
        proof {
            let seen = views(texts@).take(i as int);
            let next = views(texts@).take(i + 1);
            assert(next =~= seen.push(texts[i as int]@));
            seen.lemma_push_to_set_commute(texts[i as int]@);
        }
        i += 1;
    }
    assert(views(texts@).take(i as int) =~= views(texts@));
    let mut canonical: Vec<String> = Vec::new();
    let mut k: usize = 0;
    while k < sorted.len()
        invariant
            k <= sorted.len(),
            canonical.len() == k,
            forall|j: int| 0 <= j < k ==> (#[trigger] canonical[j])@ == sorted[j]@,
        decreases sorted.len() - k,
    {
        canonical.push(string_of(&sorted[k]));
        k += 1;
    }
    assert(views(canonical@) =~= char_views(sorted@));
    proof {
        let found = views(canonical@);
        assert(is_sorted_unique(found, views(texts@)));
        lemma_sorted_unique_is_unique(found, sorted_unique(views(texts@)));
    }
    canonical
}

} // verus!
