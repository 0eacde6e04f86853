//! What the candidates for non-Latin scripts share: the length of the word
//! being read, and the penalty for a Latin letter next to a letter of the
//! candidate's own script.

use crate::data::{SingleByteData, TableView, LATIN_LETTER};
use vstd::prelude::*;

verus! {

/// Penalty for a pair of bytes that text in the encoding does not show. No
/// candidate applies it at present.
pub const IMPLAUSIBILITY_PENALTY: i64 = -220;

/// Penalty for a Latin letter directly beside a non-Latin letter.
pub const LATIN_ADJACENCY_PENALTY: i64 = -50;

/// A candidate for a non-Latin script takes part in the verdict only once it
/// has seen a word of at least this many letters.
pub const MINIMUM_WORD_LENGTH: u64 = 2;

/// Length of the current word after a byte that is (`alphabetic`) or is not a
/// letter of the script.
pub open spec fn word_len_next(current: nat, alphabetic: bool) -> nat {
    if alphabetic {
        current + 1
    } else {
        0
    }
}

/// Length of the longest finished word after such a byte.
pub open spec fn longest_word_next(longest: nat, current: nat, alphabetic: bool) -> nat {
    if !alphabetic && current > longest {
        current
    } else {
        longest
    }
}

/// The penalty for the pair of caseless classes `previous`, `current`, of
/// which the second is (`alphabetic`) or is not a letter of the script.
pub open spec fn latin_adjacency(t: TableView, current: u8, previous: u8, alphabetic: bool)
    -> int {
    if previous == LATIN_LETTER && alphabetic {
        LATIN_ADJACENCY_PENALTY as int
    } else if current == LATIN_LETTER && t.is_non_latin_alphabetic(previous) {
        LATIN_ADJACENCY_PENALTY as int
    } else {
        0
    }
}

/// Computes [`latin_adjacency`].
pub fn latin_adjacency_penalty(
    data: &SingleByteData,
    current: u8,
    previous: u8,
    alphabetic: bool,
) -> (r: i64)
    requires
        data.wf(),
    ensures
        r == latin_adjacency(data@, current, previous, alphabetic),
{
    if previous == LATIN_LETTER && alphabetic {
        LATIN_ADJACENCY_PENALTY
    } else if current == LATIN_LETTER && data.is_non_latin_alphabetic(previous) {
        LATIN_ADJACENCY_PENALTY
    } else {
        0
    }
}

} // verus!
