use vstd::prelude::*;

verus! {

/// The four letter orderings a word can be checked against.
#[derive(Clone, Copy, Debug, PartialEq, Eq, Structural)]
pub enum OrderingVariant {
    /// Each letter sorts strictly before the next one.
    StrictAscending,
    /// Each letter sorts before the next one or equals it.
    DuplicateAscending,
    /// Each letter sorts strictly after the next one.
    StrictDescending,
    /// Each letter sorts after the next one or equals it.
    DuplicateDescending,
}

/// The relation that `v` demands of two adjacent (lowercased) letters. The
/// descending relations are the negations of the ascending ones.
pub open spec fn pair_holds(v: OrderingVariant, a: char, b: char) -> bool {
    match v {
        OrderingVariant::StrictAscending => a < b,
        OrderingVariant::DuplicateAscending => a <= b,
        OrderingVariant::StrictDescending => !(a <= b),
        OrderingVariant::DuplicateDescending => !(a < b),
    }
}

/// Whether the first letter of the window sorts strictly before the second.
pub fn strict_ascending(input: &[char]) -> (r: bool)
    requires
        input@.len() >= 2,
    ensures
        r == (input@[0] < input@[1]),
{
    input[0] < input[1]
}

/// Whether the first letter of the window sorts before the second or equals it.
pub fn duplicate_ascending(input: &[char]) -> (r: bool)
    requires
        input@.len() >= 2,
    ensures
        r == (input@[0] <= input@[1]),
{
    input[0] <= input[1]
}

/// Strictly descending, taken as "not ascending-or-equal".
pub fn strict_descending(input: &[char]) -> (r: bool)
    requires
        input@.len() >= 2,
    ensures
        r == !(input@[0] <= input@[1]),
        r == (input@[0] > input@[1]),
{
    !duplicate_ascending(input)
}

/// Descending-or-equal, taken as "not strictly ascending".
pub fn duplicate_descending(input: &[char]) -> (r: bool)
    requires
        input@.len() >= 2,
    ensures
        r == !(input@[0] < input@[1]),
        r == (input@[0] >= input@[1]),
{
    !strict_ascending(input)
}

impl OrderingVariant {
    /// Applies this ordering to the first two letters of `input`.
    pub fn check(&self, input: &[char]) -> (r: bool)
        requires
            input@.len() >= 2,
        ensures
            r == pair_holds(*self, input@[0], input@[1]),
    {
        match self {
            OrderingVariant::StrictAscending => strict_ascending(input),
            OrderingVariant::DuplicateAscending => duplicate_ascending(input),
            OrderingVariant::StrictDescending => strict_descending(input),
            OrderingVariant::DuplicateDescending => duplicate_descending(input),
        }
    }
}

} // verus!
