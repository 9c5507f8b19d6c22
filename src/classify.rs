use vstd::prelude::*;

use crate::order::{pair_holds, OrderingVariant};

verus! {

/// Whether `c` has the Unicode `Alphabetic` property.
pub uninterp spec fn alphabetic(c: char) -> bool;

/// Relies on `char::is_alphabetic`: the Unicode `Alphabetic` property, which
/// depends on the character alone.
#[verifier::external_body]
fn is_alphabetic(c: char) -> (r: bool)
    ensures
        r == alphabetic(c),
{
    c.is_alphabetic()
}

/// Lowercasing of one character of the German alphabet: `A`..`Z` map to
/// `a`..`z`, `Ä`, `Ö`, `Ü` to `ä`, `ö`, `ü` and capital `ẞ` to `ß`; every
/// other character is left as it is.
pub open spec fn lower_char(c: char) -> char {
    if 'A' <= c <= 'Z' {
        ((c as u32) + 32) as char
    } else if c == 'Ä' {
        'ä'
    } else if c == 'Ö' {
        'ö'
    } else if c == 'Ü' {
        'ü'
    } else if c == 'ẞ' {
        'ß'
    } else {
        c
    }
}

/// Every character of `w` is alphabetic.
pub open spec fn all_alphabetic(w: Seq<char>) -> bool {
    forall|i: int| 0 <= i < w.len() ==> alphabetic(#[trigger] w[i])
}

/// Every pair of adjacent letters of `w`, after lowercasing, satisfies `v`.
pub open spec fn ordered(w: Seq<char>, v: OrderingVariant) -> bool {
    forall|i: int|
        0 <= i < w.len() - 1 ==> #[trigger] pair_holds(v, lower_char(w[i]), lower_char(w[i + 1]))
}

/// A word matches an ordering when it is made of letters only and its
/// lowercased letters follow the ordering pair by pair.
pub open spec fn in_order(w: Seq<char>, v: OrderingVariant) -> bool {
    all_alphabetic(w) && ordered(w, v)
}

/// Lowercases one capital letter of the German alphabet and leaves every
/// other character unchanged.
pub fn to_lower(c: char) -> (r: char)
    ensures
        r == lower_char(c),
{
    if 'A' <= c && c <= 'Z' {
        let b: u8 = c as u8;
        (b + 32) as char
    } else if c == 'Ä' {
        'ä'
    } else if c == 'Ö' {
        'ö'
    } else if c == 'Ü' {
        'ü'
    } else if c == 'ẞ' {
        'ß'
    } else {
        c
    }
}

/// Decides whether every adjacent pair of the lowercased `word`
/// satisfies `comparison` (vacuously true for fewer than two characters).
pub fn ordered_letters(word: &str, comparison: OrderingVariant) -> (r: bool)
    ensures
        r == ordered(word@, comparison),
{
    let n: usize = word.unicode_len();
    let mut lowered: Vec<char> = Vec::new();
    for i in 0..n
        invariant
            n == word@.len(),
            lowered@.len() == i,
            forall|k: int| 0 <= k < i ==> #[trigger] lowered@[k] == lower_char(word@[k]),
    {
        lowered.push(to_lower(word.get_char(i)));
    }
    let mut j: usize = 0;
    while j + 1 < n
        invariant
            n == word@.len(),
            j == 0 || j < n,
            lowered@.len() == n,
            forall|k: int| 0 <= k < n ==> #[trigger] lowered@[k] == lower_char(word@[k]),
            forall|k: int|
                0 <= k < j ==> #[trigger] pair_holds(
                    comparison,
                    lower_char(word@[k]),
                    lower_char(word@[k + 1]),
                ),
        decreases n - j,
    {
        let pair: [char; 2] = [lowered[j], lowered[j + 1]];
        if !comparison.check(pair.as_slice()) {
            return false;
        }
        j = j + 1;
    }
    true
}

/// Decides whether `word` follows `comparison`: false as soon as a character
/// is not alphabetic, otherwise whether every adjacent pair of the lowercased
/// word satisfies it (vacuously true for words of fewer than two letters).
pub fn analyze_in_order(word: &str, comparison: OrderingVariant) -> (r: bool)
    ensures
        r == in_order(word@, comparison),
{
    let n: usize = word.unicode_len();
    for i in 0..n
        invariant
            n == word@.len(),
            forall|k: int| 0 <= k < i ==> alphabetic(#[trigger] word@[k]),
    {
        if !is_alphabetic(word.get_char(i)) {
            return false;
        }
    }
    ordered_letters(word, comparison)
}

/// A word whose letters ascend strictly also ascends when equal neighbours
/// are allowed.
pub proof fn lemma_strict_implies_duplicate(w: Seq<char>)
    requires
        in_order(w, OrderingVariant::StrictAscending),
    ensures
        in_order(w, OrderingVariant::DuplicateAscending),
{
    assert forall|i: int| 0 <= i < w.len() - 1 implies #[trigger] pair_holds(
        OrderingVariant::DuplicateAscending,
        lower_char(w[i]),
        lower_char(w[i + 1]),
    ) by {
        assert(pair_holds(OrderingVariant::StrictAscending, lower_char(w[i]), lower_char(w[i + 1])));
    }
}

/// A word of letters that has fewer than two of them follows every ordering:
/// there is no adjacent pair to check.
pub proof fn lemma_short_words_match(w: Seq<char>, v: OrderingVariant)
    requires
        w.len() <= 1,
        all_alphabetic(w),
    ensures
        in_order(w, v),
{
}

/// A word holding a character that is not alphabetic follows no ordering.
pub proof fn lemma_non_alphabetic_never_matches(w: Seq<char>, i: int, v: OrderingVariant)
    requires
        0 <= i < w.len(),
        !alphabetic(w[i]),
    ensures
        !in_order(w, v),
{
}

} // verus!
