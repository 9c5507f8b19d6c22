use ordered_words::{
    analyze_in_order, duplicate_ascending, duplicate_descending, ordered_letters,
    strict_ascending, strict_descending, to_lower, OrderingVariant,
};

const ALL: [OrderingVariant; 4] = [
    OrderingVariant::StrictAscending,
    OrderingVariant::DuplicateAscending,
    OrderingVariant::StrictDescending,
    OrderingVariant::DuplicateDescending,
];

#[test]
fn window_predicates() {
    assert!(strict_ascending(&['a', 'b']));
    assert!(!strict_ascending(&['a', 'a']));
    assert!(duplicate_ascending(&['a', 'a']));
    assert!(!duplicate_ascending(&['b', 'a']));
    assert!(strict_descending(&['b', 'a']));
    assert!(!strict_descending(&['a', 'a']));
    assert!(duplicate_descending(&['a', 'a']));
    assert!(!duplicate_descending(&['a', 'b']));
}

#[test]
fn check_dispatches_on_variant() {
    assert!(OrderingVariant::StrictAscending.check(&['a', 'c']));
    assert!(!OrderingVariant::StrictDescending.check(&['a', 'c']));
    assert!(OrderingVariant::DuplicateDescending.check(&['c', 'c']));
    assert!(!OrderingVariant::DuplicateAscending.check(&['c', 'a']));
}

#[test]
fn ab_ascends_strictly() {
    assert!(analyze_in_order("ab", OrderingVariant::StrictAscending));
    assert!(!analyze_in_order("ab", OrderingVariant::StrictDescending));
}

#[test]
fn descending_and_equal_letters() {
    assert!(analyze_in_order("ba", OrderingVariant::StrictDescending));
    assert!(!analyze_in_order("aa", OrderingVariant::StrictDescending));
    assert!(analyze_in_order("aa", OrderingVariant::DuplicateDescending));
}

#[test]
fn last_pair_breaks_duplicate_ascending() {
    assert!(analyze_in_order("abc", OrderingVariant::DuplicateAscending));
    assert!(!analyze_in_order("abca", OrderingVariant::DuplicateAscending));
}

#[test]
fn strict_ascending_words_ascend_with_duplicates() {
    for w in ["abc", "aceg", "z", "", "Bdf"] {
        assert!(analyze_in_order(w, OrderingVariant::StrictAscending));
        assert!(analyze_in_order(w, OrderingVariant::DuplicateAscending));
    }
    assert!(!analyze_in_order("abb", OrderingVariant::StrictAscending));
    assert!(analyze_in_order("abb", OrderingVariant::DuplicateAscending));
}

#[test]
fn short_words_match_every_ordering() {
    for w in ["", "a", "Z", "ä"] {
        for v in ALL {
            assert!(analyze_in_order(w, v), "{w:?} {v:?}");
        }
    }
}

#[test]
fn single_non_letter_matches_nothing() {
    for v in ALL {
        assert!(!analyze_in_order("1", v));
    }
}

#[test]
fn non_letters_match_nothing() {
    for w in ["a1", "ab-c", "z y", "ba!", "7"] {
        for v in ALL {
            assert!(!analyze_in_order(w, v), "{w:?} {v:?}");
        }
    }
}

#[test]
fn case_is_folded() {
    assert!(analyze_in_order("Abc", OrderingVariant::StrictAscending));
    assert!(analyze_in_order("aBC", OrderingVariant::StrictAscending));
    assert!(analyze_in_order("Aa", OrderingVariant::DuplicateAscending));
    assert!(!analyze_in_order("Aa", OrderingVariant::StrictAscending));
}

#[test]
fn non_ascii_letters_compare_by_code_point() {
    assert!(analyze_in_order("aä", OrderingVariant::StrictAscending));
    assert!(analyze_in_order("äa", OrderingVariant::StrictDescending));
    // 'Ä' is lowered to 'ä', which sorts after 'z'.
    assert!(analyze_in_order("zÄ", OrderingVariant::StrictAscending));
    assert!(analyze_in_order("Äz", OrderingVariant::StrictDescending));
}

#[test]
fn to_lower_maps_german_capitals() {
    assert_eq!(to_lower('A'), 'a');
    assert_eq!(to_lower('Z'), 'z');
    assert_eq!(to_lower('q'), 'q');
    assert_eq!(to_lower('Ä'), 'ä');
    assert_eq!(to_lower('Ö'), 'ö');
    assert_eq!(to_lower('Ü'), 'ü');
    assert_eq!(to_lower('ẞ'), 'ß');
    assert_eq!(to_lower('ä'), 'ä');
    assert_eq!(to_lower('ß'), 'ß');
    assert_eq!(to_lower('1'), '1');
}

#[test]
fn umlaut_capitals_are_folded_before_comparing() {
    // 'Ä' (U+00C4) sorts before 'ß' (U+00DF), but 'ä' (U+00E4) after it.
    assert!(!analyze_in_order("Äß", OrderingVariant::StrictAscending));
    assert!(analyze_in_order("Äß", OrderingVariant::StrictDescending));
    assert!(analyze_in_order("Öö", OrderingVariant::DuplicateAscending));
    assert!(!analyze_in_order("Öö", OrderingVariant::StrictAscending));
    assert!(analyze_in_order("ẞß", OrderingVariant::DuplicateDescending));
    assert!(analyze_in_order("aÜ", OrderingVariant::StrictAscending));
}

#[test]
fn ordered_letters_ignores_alphabet() {
    assert!(ordered_letters("13", OrderingVariant::StrictAscending));
    assert!(!analyze_in_order("13", OrderingVariant::StrictAscending));
    assert!(!ordered_letters("Ba", OrderingVariant::StrictAscending));
    assert!(ordered_letters("", OrderingVariant::StrictDescending));
}
