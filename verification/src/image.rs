//! Where a cover image is stored: a directory of files numbered from 1, in
//! which a new image takes the lowest number that is still free.

use crate::text::{holds, push_char, views};
use vstd::prelude::*;

verus! {

/// The directory that holds the cover images.
pub const IMG_DIR: &'static str = "./img";

/// The digit character for a value below ten.
pub open spec fn digit_char(value: nat) -> char {
    if value == 0 {
        '0'
    } else if value == 1 {
        '1'
    } else if value == 2 {
        '2'
    } else if value == 3 {
        '3'
    } else if value == 4 {
        '4'
    } else if value == 5 {
        '5'
    } else if value == 6 {
        '6'
    } else if value == 7 {
        '7'
    } else if value == 8 {
        '8'
    } else {
        '9'
    }
}

/// The value of a digit character.
pub open spec fn digit_value(c: char) -> nat {
    if c == '1' {
        1
    } else if c == '2' {
        2
    } else if c == '3' {
        3
    } else if c == '4' {
        4
    } else if c == '5' {
        5
    } else if c == '6' {
        6
    } else if c == '7' {
        7
    } else if c == '8' {
        8
    } else if c == '9' {
        9
    } else {
        0
    }
}

/// `n` in decimal notation, without leading zeros.
pub open spec fn decimal(n: nat) -> Seq<char>
    decreases n,
{
    if n < 10 {
        seq![digit_char(n)]
    } else {
        decimal(n / 10).push(digit_char(n % 10))
    }
}

/// The number that a run of decimal digits denotes.
pub open spec fn decimal_value(digits: Seq<char>) -> nat
    decreases digits.len(),
{
    if digits.len() == 0 {
        0
    } else {
        decimal_value(digits.drop_last()) * 10 + digit_value(digits.last())
    }
}

/// The file name of the image with number `index`.
pub open spec fn image_name(index: nat) -> Seq<char> {
    decimal(index) + ".jpg"@
}

/// The path of the image with number `index`.
pub open spec fn image_path(index: nat) -> Seq<char> {
    IMG_DIR@ + "/"@ + image_name(index)
}

/// `index` is the number that a new image gets in a directory that holds
/// the paths in `present`: the lowest one, from 1 on, whose path is free.
pub open spec fn is_first_free(present: Set<Seq<char>>, index: nat) -> bool {
    &&& index >= 1
    &&& !present.contains(image_path(index))
    &&& forall|i: nat| 1 <= i < index ==> present.contains(#[trigger] image_path(i))
}

/// The digit character for a value below ten.
fn digit_of(value: u128) -> (c: char)
    requires
        value < 10,
    ensures
        c == digit_char(value as nat),
{
    if value == 0 {
        '0'
    } else if value == 1 {
        '1'
    } else if value == 2 {
        '2'
    } else if value == 3 {
        '3'
    } else if value == 4 {
        '4'
    } else if value == 5 {
        '5'
    } else if value == 6 {
        '6'
    } else if value == 7 {
        '7'
    } else if value == 8 {
        '8'
    } else {
        '9'
    }
}

/// `n` in decimal notation.
pub fn decimal_string(n: u128) -> (text: String)
    ensures
        text@ == decimal(n as nat),
{
    let mut digits: Vec<char> = Vec::new();
    let mut rest: u128 = n;
    while rest >= 10
        invariant
            decimal(n as nat) == decimal(rest as nat) + digits@.reverse(),
        decreases rest,
    {
        let ghost before = digits@;
        digits.push(digit_of(rest % 10));
        assert(decimal(rest as nat) + before.reverse() =~= decimal((rest / 10) as nat)
            + digits@.reverse());
        rest = rest / 10;
    }
    let mut text = String::new();
    push_char(&mut text, digit_of(rest));
    let mut i: usize = digits.len();
    assert(digits@.reverse().take(0) =~= Seq::<char>::empty());
    while i > 0
        invariant
            i <= digits.len(),
            text@ == decimal(rest as nat) + digits@.reverse().take(digits.len() - i),
        decreases i,
    {
        i -= 1;
        push_char(&mut text, digits[i]);
        assert(digits@.reverse().take(digits.len() - i) =~= digits@.reverse().take(
            digits.len() - i - 1,
        ).push(digits[i as int]));
    }
    assert(digits@.reverse().take(digits.len() as int) =~= digits@.reverse());
    text
}

/// The path of the image with number `index`.
pub fn image_path_of(index: u128) -> (path: String)
    ensures
        path@ == image_path(index as nat),
{
    let mut path = String::from_str(IMG_DIR);
    path.append("/");
    path.append(decimal_string(index).as_str());
    path.append(".jpg");
    assert(path@ =~= image_path(index as nat));
    path
}

/// What the naming probe does next.
#[derive(Debug, PartialEq, Eq)]
pub enum ProbeStep {
    /// No image has this path yet: the new image is stored here.
    Store { index: u128, path: String },
    /// The path is taken: see whether the next one is.
    Probe(ImageProbe),
    /// Every number is taken.
    Exhausted,
}

/// A probe for the first free image number. It keeps no record of the
/// directory: each run starts again at 1.
#[derive(Debug, PartialEq, Eq)]
pub struct ImageProbe {
    index: u128,
}

impl ImageProbe {
    /// The number whose path the probe asks about.
    pub closed spec fn index(&self) -> nat {
        self.index as nat
    }

    /// A probe at number 1.
    pub fn start() -> (probe: ImageProbe)
        ensures
            probe.index() == 1,
    {
        ImageProbe { index: 1 }
    }

    /// The path to look for.
    pub fn candidate(&self) -> (path: String)
        ensures
            path@ == image_path(self.index()),
    {
        image_path_of(self.index)
    }

    /// The next step, given whether a file exists at the candidate path.
    pub fn next(self, exists: bool) -> (step: ProbeStep)
        ensures
            match step {
                ProbeStep::Store { index, path } => !exists && index == self.index() && path@
                    == image_path(self.index()),
                ProbeStep::Probe(probe) => exists && probe.index() == self.index() + 1,
                ProbeStep::Exhausted => exists && self.index() == u128::MAX,
            },
    {
        if !exists {
            ProbeStep::Store { index: self.index, path: image_path_of(self.index) }
        } else if self.index < u128::MAX {
            ProbeStep::Probe(ImageProbe { index: self.index + 1 })
        } else {
            ProbeStep::Exhausted
        }
    }
}

/// Finds the number and the path for a new image in a list of the paths
/// that are taken, by the rule of the probe: the numbers are tried from 1
/// on, and the first one whose path is not in the list is taken. A list
/// cannot hold the paths of all numbers, so there always is one.
pub fn first_free_image(present: &Vec<String>) -> (free: (u128, String))
    ensures
        is_first_free(views(present@).to_set(), free.0 as nat),
        free.1@ == image_path(free.0 as nat),
{
    let mut index: u128 = 1;
    loop
        invariant
            1 <= index <= present.len() + 1,
            forall|i: nat|
                1 <= i < index ==> views(present@).to_set().contains(#[trigger] image_path(i)),
        decreases present.len() + 1 - index,
    {
        let path = image_path_of(index);
        if !holds(present, &path) {
            return (index, path);
        }
        proof {
            lemma_present_images_are_counted(views(present@), index as nat);
        }
        index = index + 1;
    }
}

/// The paths of the images numbered 1 to `n`.
pub open spec fn paths_up_to(n: nat) -> Set<Seq<char>>
    decreases n,
{
    if n == 0 {
        Set::empty()
    } else {
        paths_up_to((n - 1) as nat).insert(image_path(n))
    }
}

/// Decimal notation can be read back: it denotes the number it was made of.
pub proof fn lemma_decimal_value(n: nat)
    ensures
        decimal_value(decimal(n)) == n,
    decreases n,
{
    if n < 10 {
        assert(decimal(n).drop_last() =~= Seq::<char>::empty());
        assert(decimal_value(decimal(n).drop_last()) == 0);
    } else {
        lemma_decimal_value(n / 10);
        assert(decimal(n).drop_last() =~= decimal(n / 10));
    }
}

/// Two images have the same path only if they have the same number.
pub proof fn lemma_image_paths_differ(a: nat, b: nat)
    requires
        a != b,
    ensures
        image_path(a) != image_path(b),
{
    let prefix = IMG_DIR@ + "/"@;
    let suffix = ".jpg"@;
    if image_path(a) == image_path(b) {
        let pa = image_path(a);
        let pb = image_path(b);
        assert(pa =~= prefix + decimal(a) + suffix);
        assert(pb =~= prefix + decimal(b) + suffix);
        assert(decimal(a).len() == decimal(b).len());
        assert forall|i: int| 0 <= i < decimal(a).len() implies decimal(a)[i] == decimal(b)[i] by {
            assert(pa[prefix.len() + i] == decimal(a)[i]);
            assert(pb[prefix.len() + i] == decimal(b)[i]);
        }
        assert(decimal(a) =~= decimal(b));
        lemma_decimal_value(a);
        lemma_decimal_value(b);
    }
}

/// The images numbered 1 to `n` have `n` paths, one each.
pub proof fn lemma_paths_up_to(n: nat)
    ensures
        paths_up_to(n).finite(),
        paths_up_to(n).len() == n,
        forall|i: nat| 1 <= i <= n ==> paths_up_to(n).contains(#[trigger] image_path(i)),
        forall|path: Seq<char>| #[trigger]
            paths_up_to(n).contains(path) ==> exists|i: nat|
                1 <= i <= n && path == #[trigger] image_path(i),
    decreases n,
{
    if n > 0 {
        let fewer = paths_up_to((n - 1) as nat);
        lemma_paths_up_to((n - 1) as nat);
        if fewer.contains(image_path(n)) {
            let i = choose|i: nat| 1 <= i <= n - 1 && image_path(n) == #[trigger] image_path(i);
            lemma_image_paths_differ(i, n);
        }
        assert forall|path: Seq<char>| #[trigger] paths_up_to(n).contains(path) implies exists|
            i: nat,
        |
            1 <= i <= n && path == #[trigger] image_path(i) by {
            if path == image_path(n) {
            } else {
                assert(fewer.contains(path));
                let i = choose|i: nat| 1 <= i <= n - 1 && path == #[trigger] image_path(i);
                assert(1 <= i <= n && path == image_path(i));
            }
        }
    }
}

/// A list that holds the paths of the images 1 to `n` is at least `n` long.
pub proof fn lemma_present_images_are_counted(present: Seq<Seq<char>>, n: nat)
    requires
        forall|i: nat| 1 <= i <= n ==> present.to_set().contains(#[trigger] image_path(i)),
    ensures
        n <= present.len(),
{
    lemma_paths_up_to(n);
    assert forall|path: Seq<char>| paths_up_to(n).contains(path) implies present.to_set().contains(
        path,
    ) by {
        let i = choose|i: nat| 1 <= i <= n && path == #[trigger] image_path(i);
    }
    vstd::seq_lib::seq_to_set_is_finite(present);
    vstd::set_lib::lemma_len_subset(paths_up_to(n), present.to_set());
    present.lemma_cardinality_of_set();
}

/// With the images 1 to `n` present and no image `n + 1`, the next image is
/// stored under number `n + 1`: that is the only number that is first free.
pub proof fn lemma_next_image_number(present: Set<Seq<char>>, n: nat, index: nat)
    requires
        forall|i: nat| 1 <= i <= n ==> present.contains(#[trigger] image_path(i)),
        !present.contains(image_path(n + 1)),
        is_first_free(present, index),
    ensures
        index == n + 1,
{
    if index < n + 1 {
        assert(present.contains(image_path(index)));
    } else if index > n + 1 {
        assert(present.contains(image_path(n + 1)));
    }
}

/// The path under which a new image is stored belongs to no image that is
/// there already, whatever their numbers: storing it overwrites nothing.
pub proof fn lemma_new_image_overwrites_nothing(present: Set<Seq<char>>, index: nat, other: nat)
    requires
        is_first_free(present, index),
        present.contains(image_path(other)),
    ensures
        other != index,
        image_path(other) != image_path(index),
{
}

} // verus!
