//! The candidate for scripts without upper and lower case (Thai, Arabic).

use crate::data::{caseless, SingleByteData, TableView, INVALID_CLASS};
use crate::encoding::EncodingId;
use crate::scan::{
    END_OF_STREAM, STEP_LIMIT, STREAM_LIMIT, Step, as_int, ending, lemma_invalid_byte_rejects,
    lemma_run_concat, run, shift,
};
use crate::word::{latin_adjacency, latin_adjacency_penalty, longest_word_next, word_len_next};
use vstd::prelude::*;

verus! {

/// What a caseless candidate remembers between bytes.
pub struct CaselessState {
    /// Caseless class of the previous byte.
    pub prev: u8,
    /// Whether the previous byte was ASCII.
    pub prev_ascii: bool,
    pub current_word_len: nat,
    pub longest_word: nat,
}

/// One byte shown to a caseless candidate.
pub open spec fn caseless_step(t: TableView, s: CaselessState, b: u8) -> Option<
    (CaselessState, int),
> {
    let class = t.classify(b);
    let caseless_class = caseless(class);
    let ascii = b < 0x80;
    let alphabetic = t.is_non_latin_alphabetic(caseless_class);
    if class == INVALID_CLASS {
        None
    } else {
        Some(
            (
                CaselessState {
                    prev: caseless_class,
                    prev_ascii: ascii,
                    current_word_len: word_len_next(s.current_word_len, alphabetic),
                    longest_word: longest_word_next(s.longest_word, s.current_word_len, alphabetic),
                },
                if s.prev_ascii && ascii {
                    0
                } else {
                    t.score(caseless_class, s.prev) + latin_adjacency(
                        t,
                        caseless_class,
                        s.prev,
                        alphabetic,
                    )
                },
            ),
        )
    }
}

/// The step of a caseless candidate over the tables `t`.
pub open spec fn caseless_stepper(t: TableView) -> Step<CaselessState, u8> {
    |s: CaselessState, b: u8| caseless_step(t, s, b)
}

/// A scoring state machine for one encoding of a caseless script.
pub struct CaselessCandidate {
    data: &'static SingleByteData,
    prev: u8,
    prev_ascii: bool,
    current_word_len: u64,
    longest_word: u64,
}

impl View for CaselessCandidate {
    type V = CaselessState;

    closed spec fn view(&self) -> CaselessState {
        CaselessState {
            prev: self.prev,
            prev_ascii: self.prev_ascii,
            current_word_len: self.current_word_len as nat,
            longest_word: self.longest_word as nat,
        }
    }
}

impl CaselessCandidate {
    /// The tables this candidate scores with.
    pub closed spec fn table(&self) -> TableView {
        self.data@
    }

    /// The tables are complete.
    pub closed spec fn wf(&self) -> bool {
        self.data.wf()
    }

    /// The state before any byte.
    pub open spec fn initial() -> CaselessState {
        CaselessState { prev: 0, prev_ascii: true, current_word_len: 0, longest_word: 0 }
    }

    /// A candidate at the start of a stream.
    pub fn new(data: &'static SingleByteData) -> (r: Self)
        requires
            data.wf(),
        ensures
            r.wf(),
            r.table() == data@,
            r@ == Self::initial(),
    {
        CaselessCandidate { data, prev: 0, prev_ascii: true, current_word_len: 0, longest_word: 0 }
    }

    /// The encoding this candidate stands for.
    pub fn encoding(&self) -> (r: EncodingId)
        ensures
            r == self.table().encoding,
    {
        self.data.encoding()
    }

    /// Length of the longest word finished so far.
    pub fn longest_word(&self) -> (r: u64)
        ensures
            r == self@.longest_word,
    {
        self.longest_word
    }

    /// Shows `buffer` to the candidate. Returns the score the buffer
    /// contributes, or `None` if it holds a byte the encoding cannot
    /// represent.
    pub fn feed(&mut self, buffer: &[u8]) -> (r: Option<i64>)
        requires
            old(self).wf(),
            old(self)@.current_word_len + buffer@.len() <= STREAM_LIMIT,
        ensures
            final(self).wf(),
            final(self).table() == old(self).table(),
            (final(self)@, as_int(r)) == run(
                caseless_stepper(old(self).table()),
                old(self)@,
                buffer@,
            ),
            r is None <==> exists|i: int|
                0 <= i < buffer@.len() && old(self).table().classify(#[trigger] buffer@[i])
                    == INVALID_CLASS,
            final(self)@.current_word_len <= old(self)@.current_word_len + buffer@.len(),
            r is Some ==> -STEP_LIMIT * buffer@.len() <= r->0 <= STEP_LIMIT * buffer@.len(),
    {
        let ghost t = self.table();
        let ghost step = caseless_stepper(t);
        let ghost start = self@;
        let ghost bytes = buffer@;
        proof {
            assert(shift(0, run(step, start, bytes)) == run(step, start, bytes));
            assert(bytes.subrange(0, bytes.len() as int) =~= bytes);
        }
        let mut score: i64 = 0;
        let mut i: usize = 0;
        while i < buffer.len()
            invariant
                0 <= i <= buffer.len(),
                bytes == buffer@,
                t == old(self).table(),
                start == old(self)@,
                bytes.len() + start.current_word_len <= STREAM_LIMIT,
                self.wf(),
                self.table() == t,
                step == caseless_stepper(t),
                run(step, start, bytes) == shift(
                    score as int,
                    run(step, self@, bytes.subrange(i as int, bytes.len() as int)),
                ),
                self@.current_word_len <= start.current_word_len + i,
                -0x1_0000 * i <= score <= 0x1_0000 * i,
            decreases buffer.len() - i,
        {
            let b = buffer[i];
            let ghost rest = bytes.subrange(i as int, bytes.len() as int);
            proof {
                assert(rest[0] == b);
                assert(rest.skip(1) =~= bytes.subrange(i + 1, bytes.len() as int));
            }
            let class = self.data.classify(b);
            if class == INVALID_CLASS {
                proof {
                    lemma_invalid_byte_rejects(t, step, start, bytes);
                }
                return None;
            }
            let caseless_class = class & 0x7F;
            let ascii = b < 0x80;
            let ascii_pair = self.prev_ascii && ascii;
            let non_ascii_alphabetic = self.data.is_non_latin_alphabetic(caseless_class);
            if non_ascii_alphabetic {
                self.current_word_len += 1;
            } else {
                if self.current_word_len > self.longest_word {
                    self.longest_word = self.current_word_len;
                }
                self.current_word_len = 0;
            }
            if !ascii_pair {
                score += self.data.score(caseless_class, self.prev);
                score +=
                latin_adjacency_penalty(self.data, caseless_class, self.prev, non_ascii_alphabetic);
            }
            self.prev_ascii = ascii;
            self.prev = caseless_class;
            i += 1;
        }
        proof {
            lemma_invalid_byte_rejects(t, step, start, bytes);
        }
        Some(score)
    }

    /// Shows `buffer` to the candidate and, if `last` is set, the space that
    /// stands for the end of the stream.
    pub fn feed_with_end(&mut self, buffer: &[u8], last: bool) -> (r: Option<i64>)
        requires
            old(self).wf(),
            old(self)@.current_word_len + buffer@.len() + 1 <= STREAM_LIMIT,
        ensures
            final(self).wf(),
            final(self).table() == old(self).table(),
            (final(self)@, as_int(r)) == run(
                caseless_stepper(old(self).table()),
                old(self)@,
                buffer@ + ending(last),
            ),
            final(self)@.current_word_len <= old(self)@.current_word_len + buffer@.len() + 1,
            r is Some ==> -STEP_LIMIT * (buffer@.len() + 1) <= r->0 <= STEP_LIMIT * (buffer@.len()
                + 1),
    {
        let space = [END_OF_STREAM];
        proof {
            assert(buffer@ + Seq::<u8>::empty() =~= buffer@);
            assert(space@ =~= seq![END_OF_STREAM]);
            lemma_run_concat(caseless_stepper(self.table()), self@, buffer@, seq![END_OF_STREAM]);
        }
        match self.feed(buffer) {
            Some(new_score) => {
                if last {
                    match self.feed(space.as_slice()) {
                        Some(additional_score) => Some(new_score + additional_score),
                        None => None,
                    }
                } else {
                    Some(new_score)
                }
            },
            None => None,
        }
    }
}

} // verus!
