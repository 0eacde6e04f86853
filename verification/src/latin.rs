//! The candidate for encodings of Latin-alphabet text.

use crate::data::{caseless, is_upper, SingleByteData, TableView, INVALID_CLASS};
use crate::encoding::EncodingId;
use crate::scan::{
    END_OF_STREAM, STEP_LIMIT, STREAM_LIMIT, Step, as_int, ending, lemma_invalid_byte_rejects,
    lemma_run_concat, run, shift,
};
use vstd::prelude::*;

verus! {

/// Penalty for a lower-case letter after an all-caps run, or an upper-case
/// letter after a lower-case one, where a non-ASCII byte takes part.
pub const IMPLAUSIBLE_LATIN_CASE_TRANSITION_PENALTY: i64 = -180;

/// Where a word of Latin letters stands with respect to case.
#[derive(Clone, Copy, Debug, PartialEq, Eq, Structural)]
pub enum LatinCaseState {
    Space,
    Upper,
    Lower,
    AllCaps,
}

/// The case state after a byte that is (`letter`) or is not a Latin letter,
/// in upper case or not.
pub open spec fn latin_case_next(state: LatinCaseState, letter: bool, upper: bool)
    -> LatinCaseState {
    if !letter {
        LatinCaseState::Space
    } else if !upper {
        LatinCaseState::Lower
    } else {
        match state {
            LatinCaseState::Space | LatinCaseState::Lower => LatinCaseState::Upper,
            LatinCaseState::Upper | LatinCaseState::AllCaps => LatinCaseState::AllCaps,
        }
    }
}

/// The penalty a byte earns for its case: lower after all-caps and upper
/// after lower are implausible, unless both bytes of the pair are ASCII.
pub open spec fn latin_case_penalty(
    state: LatinCaseState,
    letter: bool,
    upper: bool,
    ascii_pair: bool,
) -> int {
    if letter && !ascii_pair && ((!upper && state == LatinCaseState::AllCaps) || (upper && state
        == LatinCaseState::Lower)) {
        IMPLAUSIBLE_LATIN_CASE_TRANSITION_PENALTY as int
    } else {
        0
    }
}

/// Longest run of non-ASCII bytes that is counted; a longer run counts as
/// this long, which earns the same penalty.
pub const LONGEST_RUN: u32 = 0xFFFF_FFFF;

/// The length of the run of non-ASCII bytes after a byte that is ASCII or
/// not.
pub open spec fn non_ascii_run_next(run: nat, ascii: bool) -> nat {
    if ascii {
        0
    } else if run < LONGEST_RUN {
        run + 1
    } else {
        run
    }
}

/// The penalty for a byte that follows `run` consecutive non-ASCII bytes.
pub open spec fn non_ascii_run_penalty(run: nat) -> int {
    if run <= 2 {
        0
    } else if run == 3 {
        -5
    } else if run == 4 {
        -20
    } else {
        -200
    }
}

impl LatinCaseState {
    /// Moves the case machine over one byte and returns the penalty earned.
    pub fn advance(&mut self, letter: bool, upper: bool, ascii_pair: bool) -> (penalty: i64)
        ensures
            *final(self) == latin_case_next(*old(self), letter, upper),
            penalty == latin_case_penalty(*old(self), letter, upper, ascii_pair),
    {
        let mut penalty: i64 = 0;
        if !letter {
            *self = LatinCaseState::Space;
        } else if !upper {
            if *self == LatinCaseState::AllCaps && !ascii_pair {
                penalty = IMPLAUSIBLE_LATIN_CASE_TRANSITION_PENALTY;
            }
            *self = LatinCaseState::Lower;
        } else {
            match *self {
                LatinCaseState::Space => {
                    *self = LatinCaseState::Upper;
                },
                LatinCaseState::Upper | LatinCaseState::AllCaps => {
                    *self = LatinCaseState::AllCaps;
                },
                LatinCaseState::Lower => {
                    if !ascii_pair {
                        penalty = IMPLAUSIBLE_LATIN_CASE_TRANSITION_PENALTY;
                    }
                    *self = LatinCaseState::Upper;
                },
            }
        }
        penalty
    }
}

/// What a Latin candidate remembers between bytes.
pub struct LatinState {
    /// Caseless class of the previous byte.
    pub prev: u8,
    pub case_state: LatinCaseState,
    /// Number of consecutive non-ASCII bytes just seen, as far as it is
    /// counted.
    pub prev_non_ascii: nat,
}

/// One byte shown to a Latin candidate.
pub open spec fn latin_step(t: TableView, s: LatinState, b: u8) -> Option<(LatinState, int)> {
    let class = t.classify(b);
    let caseless_class = caseless(class);
    let ascii = b < 0x80;
    let ascii_pair = s.prev_non_ascii == 0 && ascii;
    let letter = t.is_latin_alphabetic(caseless_class);
    if class == INVALID_CLASS {
        None
    } else {
        Some(
            (
                LatinState {
                    prev: caseless_class,
                    case_state: latin_case_next(s.case_state, letter, is_upper(class)),
                    prev_non_ascii: non_ascii_run_next(s.prev_non_ascii, ascii),
                },
                non_ascii_run_penalty(s.prev_non_ascii) + latin_case_penalty(
                    s.case_state,
                    letter,
                    is_upper(class),
                    ascii_pair,
                ) + if ascii_pair {
                    0
                } else {
                    t.score(caseless_class, s.prev)
                },
            ),
        )
    }
}

/// The step of a Latin candidate over the tables `t`.
pub open spec fn latin_stepper(t: TableView) -> Step<LatinState, u8> {
    |s: LatinState, b: u8| latin_step(t, s, b)
}

/// A scoring state machine for one Latin-alphabet encoding.
pub struct LatinCandidate {
    data: &'static SingleByteData,
    prev: u8,
    case_state: LatinCaseState,
    prev_non_ascii: u32,
}

impl View for LatinCandidate {
    type V = LatinState;

    closed spec fn view(&self) -> LatinState {
        LatinState {
            prev: self.prev,
            case_state: self.case_state,
            prev_non_ascii: self.prev_non_ascii as nat,
        }
    }
}

impl LatinCandidate {
    /// The tables this candidate scores with.
    pub closed spec fn table(&self) -> TableView {
        self.data@
    }

    /// The tables are complete.
    pub closed spec fn wf(&self) -> bool {
        self.data.wf()
    }

    /// The state before any byte.
    pub open spec fn initial() -> LatinState {
        LatinState { prev: 0, case_state: LatinCaseState::Space, prev_non_ascii: 0 }
    }

    /// A candidate at the start of a stream.
    pub fn new(data: &'static SingleByteData) -> (r: Self)
        requires
            data.wf(),
        ensures
            r.wf(),
            r.table() == data@,
            r@ == Self::initial(),
    {
        LatinCandidate { data, prev: 0, case_state: LatinCaseState::Space, prev_non_ascii: 0 }
    }

    /// The encoding this candidate stands for.
    pub fn encoding(&self) -> (r: EncodingId)
        ensures
            r == self.table().encoding,
    {
        self.data.encoding()
    }

    /// Shows `buffer` to the candidate. Returns the score the buffer
    /// contributes, or `None` if it holds a byte the encoding cannot
    /// represent.
    pub fn feed(&mut self, buffer: &[u8]) -> (r: Option<i64>)
        requires
            old(self).wf(),
            buffer@.len() <= STREAM_LIMIT,
        ensures
            final(self).wf(),
            final(self).table() == old(self).table(),
            (final(self)@, as_int(r)) == run(
                latin_stepper(old(self).table()),
                old(self)@,
                buffer@,
            ),
            r is None <==> exists|i: int|
                0 <= i < buffer@.len() && old(self).table().classify(#[trigger] buffer@[i])
                    == INVALID_CLASS,
            r is Some ==> -STEP_LIMIT * buffer@.len() <= r->0 <= STEP_LIMIT * buffer@.len(),
    {
        let ghost t = self.table();
        let ghost step = latin_stepper(t);
        let ghost start = self@;
        let ghost bytes = buffer@;
        proof {
            assert(shift(0, run(step, start, bytes)) == run(step, start, bytes));
            assert(bytes.subrange(0, bytes.len() as int) =~= bytes);
        }
        let mut score: i64 = 0;
        let mut i: usize = 0;
        while i < buffer.len()
            invariant
                0 <= i <= buffer.len(),
                bytes == buffer@,
                t == old(self).table(),
                start == old(self)@,
                bytes.len() <= STREAM_LIMIT,
                self.wf(),
                self.table() == t,
                step == latin_stepper(t),
                run(step, start, bytes) == shift(
                    score as int,
                    run(step, self@, bytes.subrange(i as int, bytes.len() as int)),
                ),
                -0x1_0000 * i <= score <= 0x1_0000 * i,
            decreases buffer.len() - i,
        {
            let b = buffer[i];
            let ghost rest = bytes.subrange(i as int, bytes.len() as int);
            proof {
                assert(rest[0] == b);
                assert(rest.skip(1) =~= bytes.subrange(i + 1, bytes.len() as int));
            }
            let class = self.data.classify(b);
            if class == INVALID_CLASS {
                proof {
                    lemma_invalid_byte_rejects(t, step, start, bytes);
                }
                return None;
            }
            let caseless_class = class & 0x7F;
            let ascii = b < 0x80;
            let ascii_pair = self.prev_non_ascii == 0 && ascii;
            let non_ascii_penalty: i64 = match self.prev_non_ascii {
                0 | 1 | 2 => 0,
                3 => -5,
                4 => -20,
                _ => -200,
            };
            score += non_ascii_penalty;
            let letter = self.data.is_latin_alphabetic(caseless_class);
            score += self.case_state.advance(letter, class >= 0x80, ascii_pair);
            if !ascii_pair {
                score += self.data.score(caseless_class, self.prev);
            }
            if ascii {
                self.prev_non_ascii = 0;
            } else if self.prev_non_ascii < LONGEST_RUN {
                self.prev_non_ascii += 1;
            }
            self.prev = caseless_class;
            i += 1;
        }
        proof {
            lemma_invalid_byte_rejects(t, step, start, bytes);
        }
        Some(score)
    }

    /// Shows `buffer` to the candidate and, if `last` is set, the space that
    /// stands for the end of the stream.
    pub fn feed_with_end(&mut self, buffer: &[u8], last: bool) -> (r: Option<i64>)
        requires
            old(self).wf(),
            buffer@.len() + 1 <= STREAM_LIMIT,
        ensures
            final(self).wf(),
            final(self).table() == old(self).table(),
            (final(self)@, as_int(r)) == run(
                latin_stepper(old(self).table()),
                old(self)@,
                buffer@ + ending(last),
            ),
            r is Some ==> -STEP_LIMIT * (buffer@.len() + 1) <= r->0 <= STEP_LIMIT * (buffer@.len()
                + 1),
    {
        let space = [END_OF_STREAM];
        proof {
            assert(buffer@ + Seq::<u8>::empty() =~= buffer@);
            assert(space@ =~= seq![END_OF_STREAM]);
            lemma_run_concat(latin_stepper(self.table()), self@, buffer@, seq![END_OF_STREAM]);
        }
        match self.feed(buffer) {
            Some(new_score) => {
                if last {
                    match self.feed(space.as_slice()) {
                        Some(additional_score) => Some(new_score + additional_score),
                        None => None,
                    }
                } else {
                    Some(new_score)
                }
            },
            None => None,
        }
    }
}

} // verus!
