//! The two candidates for Hebrew: text stored in reading order
//! (windows-1255) and text stored in display order (ISO-8859-8). Each counts
//! the pairs of letter and punctuation that are plausible in its order.

use crate::data::{
    caseless, SingleByteData, TableView, ASCII_PUNCTUATION, INVALID_CLASS,
};
use crate::encoding::EncodingId;
use crate::scan::{
    END_OF_STREAM, STEP_LIMIT, STREAM_LIMIT, Step, as_int, ending, lemma_invalid_byte_rejects,
    lemma_run_concat, run, shift,
};
use crate::word::{latin_adjacency, latin_adjacency_penalty, longest_word_next, word_len_next};
use vstd::prelude::*;

verus! {

/// What a Hebrew candidate remembers between bytes.
pub struct HebrewState {
    /// Caseless class of the previous byte.
    pub prev: u8,
    /// Whether the previous byte was ASCII.
    pub prev_ascii: bool,
    /// Number of plausible pairs of a letter and ASCII punctuation seen.
    pub plausible_punctuation: nat,
    pub current_word_len: nat,
    pub longest_word: nat,
}

/// The state of a Hebrew candidate before any byte.
pub open spec fn hebrew_initial() -> HebrewState {
    HebrewState {
        prev: 0,
        prev_ascii: true,
        plausible_punctuation: 0,
        current_word_len: 0,
        longest_word: 0,
    }
}

/// In reading order punctuation follows the letter it belongs to.
pub open spec fn logical_pair(t: TableView, current: u8, previous: u8) -> bool {
    current == ASCII_PUNCTUATION && t.is_non_latin_alphabetic(previous)
}

/// In display order punctuation stands before the letter it belongs to.
pub open spec fn visual_pair(t: TableView, current: u8, previous: u8) -> bool {
    t.is_non_latin_alphabetic(current) && previous == ASCII_PUNCTUATION
}

/// One byte shown to a Hebrew candidate; `plausible` says whether the byte
/// and its predecessor form a plausible pair in the candidate's order.
pub open spec fn hebrew_step(t: TableView, s: HebrewState, b: u8, plausible: bool) -> Option<
    (HebrewState, int),
> {
    let class = t.classify(b);
    let caseless_class = caseless(class);
    let ascii = b < 0x80;
    let ascii_pair = s.prev_ascii && ascii;
    let alphabetic = t.is_non_latin_alphabetic(caseless_class);
    if class == INVALID_CLASS {
        None
    } else {
        Some(
            (
                HebrewState {
                    prev: caseless_class,
                    prev_ascii: ascii,
                    plausible_punctuation: if !ascii_pair && plausible {
                        s.plausible_punctuation + 1
                    } else {
                        s.plausible_punctuation
                    },
                    current_word_len: word_len_next(s.current_word_len, alphabetic),
                    longest_word: longest_word_next(s.longest_word, s.current_word_len, alphabetic),
                },
                if ascii_pair {
                    0
                } else {
                    t.score(caseless_class, s.prev) + latin_adjacency(
                        t,
                        caseless_class,
                        s.prev,
                        alphabetic,
                    )
                },
            ),
        )
    }
}

/// One byte shown to a candidate for Hebrew in reading order.
pub open spec fn logical_step(t: TableView, s: HebrewState, b: u8) -> Option<(HebrewState, int)> {
    hebrew_step(t, s, b, logical_pair(t, caseless(t.classify(b)), s.prev))
}

/// One byte shown to a candidate for Hebrew in display order.
pub open spec fn visual_step(t: TableView, s: HebrewState, b: u8) -> Option<(HebrewState, int)> {
    hebrew_step(t, s, b, visual_pair(t, caseless(t.classify(b)), s.prev))
}

/// The step of a candidate for Hebrew in reading order over the tables `t`.
pub open spec fn logical_stepper(t: TableView) -> Step<HebrewState, u8> {
    |s: HebrewState, b: u8| logical_step(t, s, b)
}

/// The step of a candidate for Hebrew in display order over the tables `t`.
pub open spec fn visual_stepper(t: TableView) -> Step<HebrewState, u8> {
    |s: HebrewState, b: u8| visual_step(t, s, b)
}

/// A scoring state machine for Hebrew stored in reading order.
pub struct LogicalCandidate {
    data: &'static SingleByteData,
    prev: u8,
    prev_ascii: bool,
    plausible_punctuation: u64,
    current_word_len: u64,
    longest_word: u64,
}

impl View for LogicalCandidate {
    type V = HebrewState;

    closed spec fn view(&self) -> HebrewState {
        HebrewState {
            prev: self.prev,
            prev_ascii: self.prev_ascii,
            plausible_punctuation: self.plausible_punctuation as nat,
            current_word_len: self.current_word_len as nat,
            longest_word: self.longest_word as nat,
        }
    }
}

impl LogicalCandidate {
    /// The tables this candidate scores with.
    pub closed spec fn table(&self) -> TableView {
        self.data@
    }

    /// The tables are complete.
    pub closed spec fn wf(&self) -> bool {
        self.data.wf()
    }

    /// A candidate at the start of a stream.
    pub fn new(data: &'static SingleByteData) -> (r: Self)
        requires
            data.wf(),
        ensures
            r.wf(),
            r.table() == data@,
            r@ == hebrew_initial(),
    {
        LogicalCandidate {
            data,
            prev: 0,
            prev_ascii: true,
            plausible_punctuation: 0,
            current_word_len: 0,
            longest_word: 0,
        }
    }

    /// The encoding this candidate stands for.
    pub fn encoding(&self) -> (r: EncodingId)
        ensures
            r == self.table().encoding,
    {
        self.data.encoding()
    }

    /// Length of the longest word finished so far.
    pub fn longest_word(&self) -> (r: u64)
        ensures
            r == self@.longest_word,
    {
        self.longest_word
    }

    /// Number of plausible pairs of a letter and punctuation seen so far.
    pub fn plausible_punctuation(&self) -> (r: u64)
        ensures
            r == self@.plausible_punctuation,
    {
        self.plausible_punctuation
    }

    /// Shows `buffer` to the candidate. Returns the score the buffer
    /// contributes, or `None` if it holds a byte the encoding cannot
    /// represent.
    pub fn feed(&mut self, buffer: &[u8]) -> (r: Option<i64>)
        requires
            old(self).wf(),
            old(self)@.current_word_len + buffer@.len() <= STREAM_LIMIT,
            old(self)@.plausible_punctuation + buffer@.len() <= STREAM_LIMIT,
        ensures
            final(self).wf(),
            final(self).table() == old(self).table(),
            (final(self)@, as_int(r)) == run(
                logical_stepper(old(self).table()),
                old(self)@,
                buffer@,
            ),
            r is None <==> exists|i: int|
                0 <= i < buffer@.len() && old(self).table().classify(#[trigger] buffer@[i])
                    == INVALID_CLASS,
            final(self)@.current_word_len <= old(self)@.current_word_len + buffer@.len(),
            final(self)@.plausible_punctuation <= old(self)@.plausible_punctuation
                + buffer@.len(),
            r is Some ==> -STEP_LIMIT * buffer@.len() <= r->0 <= STEP_LIMIT * buffer@.len(),
    {
        let ghost t = self.table();
        let ghost step = logical_stepper(t);
        let ghost start = self@;
        let ghost bytes = buffer@;
        proof {
            assert(shift(0, run(step, start, bytes)) == run(step, start, bytes));
            assert(bytes.subrange(0, bytes.len() as int) =~= bytes);
        }
        let mut score: i64 = 0;
        let mut i: usize = 0;
        while i < buffer.len()
            invariant
                0 <= i <= buffer.len(),
                bytes == buffer@,
                t == old(self).table(),
                start == old(self)@,
                bytes.len() + start.current_word_len <= STREAM_LIMIT,
                bytes.len() + start.plausible_punctuation <= STREAM_LIMIT,
                self.wf(),
                self.table() == t,
                step == logical_stepper(t),
                run(step, start, bytes) == shift(
                    score as int,
                    run(step, self@, bytes.subrange(i as int, bytes.len() as int)),
                ),
                self@.current_word_len <= start.current_word_len + i,
                self@.plausible_punctuation <= start.plausible_punctuation + i,
                -0x1_0000 * i <= score <= 0x1_0000 * i,
            decreases buffer.len() - i,
        {
            let b = buffer[i];
            let ghost rest = bytes.subrange(i as int, bytes.len() as int);
            proof {
                assert(rest[0] == b);
                assert(rest.skip(1) =~= bytes.subrange(i + 1, bytes.len() as int));
            }
            let class = self.data.classify(b);
            if class == INVALID_CLASS {
                proof {
                    lemma_invalid_byte_rejects(t, step, start, bytes);
                }
                return None;
            }
            let caseless_class = class & 0x7F;
            let ascii = b < 0x80;
            let ascii_pair = self.prev_ascii && ascii;
            let non_ascii_alphabetic = self.data.is_non_latin_alphabetic(caseless_class);
            if non_ascii_alphabetic {
                self.current_word_len += 1;
            } else {
                if self.current_word_len > self.longest_word {
                    self.longest_word = self.current_word_len;
                }
                self.current_word_len = 0;
            }
            if !ascii_pair {
                score += self.data.score(caseless_class, self.prev);
                if caseless_class == ASCII_PUNCTUATION && self.data.is_non_latin_alphabetic(
                    self.prev,
                ) {
                    self.plausible_punctuation += 1;
                }
                score +=
                latin_adjacency_penalty(self.data, caseless_class, self.prev, non_ascii_alphabetic);
            }
            self.prev_ascii = ascii;
            self.prev = caseless_class;
            i += 1;
        }
        proof {
            lemma_invalid_byte_rejects(t, step, start, bytes);
        }
        Some(score)
    }

    /// Shows `buffer` to the candidate and, if `last` is set, the space that
    /// stands for the end of the stream.
    pub fn feed_with_end(&mut self, buffer: &[u8], last: bool) -> (r: Option<i64>)
        requires
            old(self).wf(),
            old(self)@.current_word_len + buffer@.len() + 1 <= STREAM_LIMIT,
            old(self)@.plausible_punctuation + buffer@.len() + 1 <= STREAM_LIMIT,
        ensures
            final(self).wf(),
            final(self).table() == old(self).table(),
            (final(self)@, as_int(r)) == run(
                logical_stepper(old(self).table()),
                old(self)@,
                buffer@ + ending(last),
            ),
            final(self)@.current_word_len <= old(self)@.current_word_len + buffer@.len() + 1,
            final(self)@.plausible_punctuation <= old(self)@.plausible_punctuation
                + buffer@.len() + 1,
            r is Some ==> -STEP_LIMIT * (buffer@.len() + 1) <= r->0 <= STEP_LIMIT * (buffer@.len()
                + 1),
    {
        let space = [END_OF_STREAM];
        proof {
            assert(buffer@ + Seq::<u8>::empty() =~= buffer@);
            assert(space@ =~= seq![END_OF_STREAM]);
            lemma_run_concat(logical_stepper(self.table()), self@, buffer@, seq![END_OF_STREAM]);
        }
        match self.feed(buffer) {
            Some(new_score) => {
                if last {
                    match self.feed(space.as_slice()) {
                        Some(additional_score) => Some(new_score + additional_score),
                        None => None,
                    }
                } else {
                    Some(new_score)
                }
            },
            None => None,
        }
    }
}

/// A scoring state machine for Hebrew stored in display order.
pub struct VisualCandidate {
    data: &'static SingleByteData,
    prev: u8,
    prev_ascii: bool,
    plausible_punctuation: u64,
    current_word_len: u64,
    longest_word: u64,
}

impl View for VisualCandidate {
    type V = HebrewState;

    closed spec fn view(&self) -> HebrewState {
        HebrewState {
            prev: self.prev,
            prev_ascii: self.prev_ascii,
            plausible_punctuation: self.plausible_punctuation as nat,
            current_word_len: self.current_word_len as nat,
            longest_word: self.longest_word as nat,
        }
    }
}

impl VisualCandidate {
    /// The tables this candidate scores with.
    pub closed spec fn table(&self) -> TableView {
        self.data@
    }

    /// The tables are complete.
    pub closed spec fn wf(&self) -> bool {
        self.data.wf()
    }

    /// A candidate at the start of a stream.
    pub fn new(data: &'static SingleByteData) -> (r: Self)
        requires
            data.wf(),
        ensures
            r.wf(),
            r.table() == data@,
            r@ == hebrew_initial(),
    {
        VisualCandidate {
            data,
            prev: 0,
            prev_ascii: true,
            plausible_punctuation: 0,
            current_word_len: 0,
            longest_word: 0,
        }
    }

    /// The encoding this candidate stands for.
    pub fn encoding(&self) -> (r: EncodingId)
        ensures
            r == self.table().encoding,
    {
        self.data.encoding()
    }

    /// Length of the longest word finished so far.
    pub fn longest_word(&self) -> (r: u64)
        ensures
            r == self@.longest_word,
    {
        self.longest_word
    }

    /// Number of plausible pairs of a letter and punctuation seen so far.
    pub fn plausible_punctuation(&self) -> (r: u64)
        ensures
            r == self@.plausible_punctuation,
    {
        self.plausible_punctuation
    }

    /// Shows `buffer` to the candidate. Returns the score the buffer
    /// contributes, or `None` if it holds a byte the encoding cannot
    /// represent.
    pub fn feed(&mut self, buffer: &[u8]) -> (r: Option<i64>)
        requires
            old(self).wf(),
            old(self)@.current_word_len + buffer@.len() <= STREAM_LIMIT,
            old(self)@.plausible_punctuation + buffer@.len() <= STREAM_LIMIT,
        ensures
            final(self).wf(),
            final(self).table() == old(self).table(),
            (final(self)@, as_int(r)) == run(
                visual_stepper(old(self).table()),
                old(self)@,
                buffer@,
            ),
            r is None <==> exists|i: int|
                0 <= i < buffer@.len() && old(self).table().classify(#[trigger] buffer@[i])
                    == INVALID_CLASS,
            final(self)@.current_word_len <= old(self)@.current_word_len + buffer@.len(),
            final(self)@.plausible_punctuation <= old(self)@.plausible_punctuation
                + buffer@.len(),
            r is Some ==> -STEP_LIMIT * buffer@.len() <= r->0 <= STEP_LIMIT * buffer@.len(),
    {
        let ghost t = self.table();
        let ghost step = visual_stepper(t);
        let ghost start = self@;
        let ghost bytes = buffer@;
        proof {
            assert(shift(0, run(step, start, bytes)) == run(step, start, bytes));
            assert(bytes.subrange(0, bytes.len() as int) =~= bytes);
        }
        let mut score: i64 = 0;
        let mut i: usize = 0;
        while i < buffer.len()
            invariant
                0 <= i <= buffer.len(),
                bytes == buffer@,
                t == old(self).table(),
                start == old(self)@,
                bytes.len() + start.current_word_len <= STREAM_LIMIT,
                bytes.len() + start.plausible_punctuation <= STREAM_LIMIT,
                self.wf(),
                self.table() == t,
                step == visual_stepper(t),
                run(step, start, bytes) == shift(
                    score as int,
                    run(step, self@, bytes.subrange(i as int, bytes.len() as int)),
                ),
                self@.current_word_len <= start.current_word_len + i,
                self@.plausible_punctuation <= start.plausible_punctuation + i,
                -0x1_0000 * i <= score <= 0x1_0000 * i,
            decreases buffer.len() - i,
        {
            let b = buffer[i];
            let ghost rest = bytes.subrange(i as int, bytes.len() as int);
            proof {
                assert(rest[0] == b);
                assert(rest.skip(1) =~= bytes.subrange(i + 1, bytes.len() as int));
            }
            let class = self.data.classify(b);
            if class == INVALID_CLASS {
                proof {
                    lemma_invalid_byte_rejects(t, step, start, bytes);
                }
                return None;
            }
            let caseless_class = class & 0x7F;
            let ascii = b < 0x80;
            let ascii_pair = self.prev_ascii && ascii;
            let non_ascii_alphabetic = self.data.is_non_latin_alphabetic(caseless_class);
            if non_ascii_alphabetic {
                self.current_word_len += 1;
            } else {
                if self.current_word_len > self.longest_word {
                    self.longest_word = self.current_word_len;
                }
                self.current_word_len = 0;
            }
            if !ascii_pair {
                score += self.data.score(caseless_class, self.prev);
                if non_ascii_alphabetic && self.prev == ASCII_PUNCTUATION {
                    self.plausible_punctuation += 1;
                }
                score +=
                latin_adjacency_penalty(self.data, caseless_class, self.prev, non_ascii_alphabetic);
            }
            self.prev_ascii = ascii;
            self.prev = caseless_class;
            i += 1;
        }
        proof {
            lemma_invalid_byte_rejects(t, step, start, bytes);
        }
        Some(score)
    }

    /// Shows `buffer` to the candidate and, if `last` is set, the space that
    /// stands for the end of the stream.
    pub fn feed_with_end(&mut self, buffer: &[u8], last: bool) -> (r: Option<i64>)
        requires
            old(self).wf(),
            old(self)@.current_word_len + buffer@.len() + 1 <= STREAM_LIMIT,
            old(self)@.plausible_punctuation + buffer@.len() + 1 <= STREAM_LIMIT,
        ensures
            final(self).wf(),
            final(self).table() == old(self).table(),
            (final(self)@, as_int(r)) == run(
                visual_stepper(old(self).table()),
                old(self)@,
                buffer@ + ending(last),
            ),
            final(self)@.current_word_len <= old(self)@.current_word_len + buffer@.len() + 1,
            final(self)@.plausible_punctuation <= old(self)@.plausible_punctuation
                + buffer@.len() + 1,
            r is Some ==> -STEP_LIMIT * (buffer@.len() + 1) <= r->0 <= STEP_LIMIT * (buffer@.len()
                + 1),
    {
        let space = [END_OF_STREAM];
        proof {
            assert(buffer@ + Seq::<u8>::empty() =~= buffer@);
            assert(space@ =~= seq![END_OF_STREAM]);
            lemma_run_concat(visual_stepper(self.table()), self@, buffer@, seq![END_OF_STREAM]);
        }
        match self.feed(buffer) {
            Some(new_score) => {
                if last {
                    match self.feed(space.as_slice()) {
                        Some(additional_score) => Some(new_score + additional_score),
                        None => None,
                    }
                } else {
                    Some(new_score)
                }
            },
            None => None,
        }
    }
}

} // verus!
