//! Finds the words of a corpus whose letters are in ascending or descending
//! alphabetical order, strictly or with repeated letters allowed, and ranks
//! the longest of them.
pub mod classify;
pub mod entry;
pub mod order;
pub mod rank;

pub use classify::{analyze_in_order, ordered_letters, to_lower};
pub use entry::{filter_entries, from_word_list, keep_entry, SimpleWord};
pub use order::{
    duplicate_ascending, duplicate_descending, strict_ascending, strict_descending,
    OrderingVariant,
};
pub use rank::{
    dedup_adjacent_positions, matching_positions, rank, sort_by_length, top_ten, TOP_N,
};
