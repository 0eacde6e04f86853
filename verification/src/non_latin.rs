//! The candidates for scripts other than Latin that have upper and lower
//! case (Greek, Cyrillic), and for scripts without case (Thai, Arabic).

use crate::data::{caseless, is_upper, SingleByteData, TableView, INVALID_CLASS, LATIN_LETTER};
use crate::encoding::EncodingId;
use crate::scan::{
    END_OF_STREAM, STEP_LIMIT, STREAM_LIMIT, Step, as_int, ending, lemma_invalid_byte_rejects,
    lemma_run_concat, run, shift,
};
use crate::word::{latin_adjacency, latin_adjacency_penalty, longest_word_next, word_len_next};
use vstd::prelude::*;

verus! {

/// Bonus for a word that starts in upper case and goes on in lower case.
pub const NON_LATIN_CAPITALIZATION_BONUS: i64 = 40;

/// Penalty for a word in capitals, applied to KOI8-U only.
pub const NON_LATIN_ALL_CAPS_PENALTY: i64 = -40;

/// Penalty for each letter of a word whose case is mixed at random.
pub const NON_LATIN_MIXED_CASE_PENALTY: i64 = -20;

/// Penalty for a change of case in the manner of camel case.
pub const NON_LATIN_CAMEL_PENALTY: i64 = -80;

/// Penalty for a change of case that ordinary text does not show.
pub const NON_LATIN_IMPLAUSIBLE_CASE_TRANSITION_PENALTY: i64 = -100;

/// Where a word of non-Latin letters stands with respect to case.
#[derive(Clone, Copy, Debug, PartialEq, Eq, Structural)]
pub enum NonLatinCaseState {
    Space,
    Upper,
    Lower,
    UpperLower,
    LowerUpper,
    LowerUpperUpper,
    LowerUpperLower,
    /// Like `UpperLower`, but reached through another state.
    UpperLowerCamel,
    AllCaps,
    Mix,
}

/// How a byte bears on the case of a non-Latin word.
#[derive(Clone, Copy, Debug, PartialEq, Eq, Structural)]
pub enum CaseEvent {
    /// A Latin letter: the word is a mix of scripts.
    Latin,
    /// Anything that is not a letter of the script: the word ends.
    Break,
    LowerLetter,
    UpperLetter,
}

/// The event that a byte of class `class` is, given whether its caseless
/// class is a letter of the script.
pub open spec fn case_event(class: u8, alphabetic: bool) -> CaseEvent {
    if caseless(class) == LATIN_LETTER {
        CaseEvent::Latin
    } else if !alphabetic {
        CaseEvent::Break
    } else if !is_upper(class) {
        CaseEvent::LowerLetter
    } else {
        CaseEvent::UpperLetter
    }
}

/// The case state after an event.
pub open spec fn non_latin_case_next(state: NonLatinCaseState, event: CaseEvent)
    -> NonLatinCaseState {
    match event {
        CaseEvent::Latin => NonLatinCaseState::Mix,
        CaseEvent::Break => NonLatinCaseState::Space,
        CaseEvent::LowerLetter => match state {
            NonLatinCaseState::Space => NonLatinCaseState::Lower,
            NonLatinCaseState::Upper => NonLatinCaseState::UpperLower,
            NonLatinCaseState::Lower => NonLatinCaseState::Lower,
            NonLatinCaseState::UpperLower => NonLatinCaseState::UpperLower,
            NonLatinCaseState::UpperLowerCamel => NonLatinCaseState::UpperLowerCamel,
            NonLatinCaseState::LowerUpper => NonLatinCaseState::LowerUpperLower,
            NonLatinCaseState::LowerUpperUpper => NonLatinCaseState::Mix,
            NonLatinCaseState::LowerUpperLower => NonLatinCaseState::UpperLowerCamel,
            NonLatinCaseState::AllCaps => NonLatinCaseState::Mix,
            NonLatinCaseState::Mix => NonLatinCaseState::Mix,
        },
        CaseEvent::UpperLetter => match state {
            NonLatinCaseState::Space => NonLatinCaseState::Upper,
            NonLatinCaseState::Upper => NonLatinCaseState::AllCaps,
            NonLatinCaseState::Lower => NonLatinCaseState::LowerUpper,
            NonLatinCaseState::UpperLower => NonLatinCaseState::LowerUpper,
            NonLatinCaseState::UpperLowerCamel => NonLatinCaseState::LowerUpper,
            NonLatinCaseState::LowerUpper => NonLatinCaseState::LowerUpperUpper,
            NonLatinCaseState::LowerUpperUpper => NonLatinCaseState::LowerUpperUpper,
            NonLatinCaseState::Mix => NonLatinCaseState::Mix,
            NonLatinCaseState::LowerUpperLower => NonLatinCaseState::Mix,
            NonLatinCaseState::AllCaps => NonLatinCaseState::AllCaps,
        },
    }
}

/// What an event contributes to the score. `koi8u` says whether the
/// candidate stands for KOI8-U, the one encoding whose words in capitals are
/// penalised.
pub open spec fn non_latin_case_score(state: NonLatinCaseState, event: CaseEvent, koi8u: bool)
    -> int {
    match event {
        CaseEvent::Latin => 0,
        CaseEvent::Break => match state {
            NonLatinCaseState::UpperLower => NON_LATIN_CAPITALIZATION_BONUS as int,
            NonLatinCaseState::LowerUpper => NON_LATIN_IMPLAUSIBLE_CASE_TRANSITION_PENALTY as int,
            NonLatinCaseState::LowerUpperLower => NON_LATIN_CAMEL_PENALTY as int,
            NonLatinCaseState::AllCaps => if koi8u {
                NON_LATIN_ALL_CAPS_PENALTY as int
            } else {
                0
            },
            NonLatinCaseState::Mix | NonLatinCaseState::LowerUpperUpper =>
                NON_LATIN_MIXED_CASE_PENALTY as int,
            _ => 0,
        },
        CaseEvent::LowerLetter => match state {
            NonLatinCaseState::LowerUpper => NON_LATIN_CAMEL_PENALTY as int,
            NonLatinCaseState::LowerUpperUpper => NON_LATIN_MIXED_CASE_PENALTY as int,
            NonLatinCaseState::LowerUpperLower => NON_LATIN_CAMEL_PENALTY as int,
            NonLatinCaseState::AllCaps => NON_LATIN_IMPLAUSIBLE_CASE_TRANSITION_PENALTY as int,
            NonLatinCaseState::Mix => NON_LATIN_MIXED_CASE_PENALTY as int,
            _ => 0,
        },
        CaseEvent::UpperLetter => match state {
            NonLatinCaseState::LowerUpper => NON_LATIN_IMPLAUSIBLE_CASE_TRANSITION_PENALTY as int,
            NonLatinCaseState::LowerUpperUpper | NonLatinCaseState::Mix =>
                NON_LATIN_MIXED_CASE_PENALTY as int,
            NonLatinCaseState::LowerUpperLower =>
                NON_LATIN_IMPLAUSIBLE_CASE_TRANSITION_PENALTY as int,
            _ => 0,
        },
    }
}

/// What a cased non-Latin candidate remembers between bytes.
pub struct NonLatinCasedState {
    /// Caseless class of the previous byte.
    pub prev: u8,
    pub case_state: NonLatinCaseState,
    /// Whether the previous byte was ASCII.
    pub prev_ascii: bool,
    pub current_word_len: nat,
    pub longest_word: nat,
}

/// One byte shown to a cased non-Latin candidate.
pub open spec fn non_latin_cased_step(t: TableView, s: NonLatinCasedState, b: u8) -> Option<
    (NonLatinCasedState, int),
> {
    let class = t.classify(b);
    let caseless_class = caseless(class);
    let ascii = b < 0x80;
    let ascii_pair = s.prev_ascii && ascii;
    let alphabetic = t.is_non_latin_alphabetic(caseless_class);
    let event = case_event(class, alphabetic);
    if class == INVALID_CLASS {
        None
    } else {
        Some(
            (
                NonLatinCasedState {
                    prev: caseless_class,
                    case_state: non_latin_case_next(s.case_state, event),
                    prev_ascii: ascii,
                    current_word_len: word_len_next(s.current_word_len, alphabetic),
                    longest_word: longest_word_next(s.longest_word, s.current_word_len, alphabetic),
                },
                non_latin_case_score(s.case_state, event, t.encoding == EncodingId::Koi8U)
                    + if ascii_pair {
                    0
                } else {
                    t.score(caseless_class, s.prev) + latin_adjacency(
                        t,
                        caseless_class,
                        s.prev,
                        alphabetic,
                    )
                },
            ),
        )
    }
}

/// The step of a cased non-Latin candidate over the tables `t`.
pub open spec fn non_latin_cased_stepper(t: TableView) -> Step<NonLatinCasedState, u8> {
    |s: NonLatinCasedState, b: u8| non_latin_cased_step(t, s, b)
}

impl NonLatinCaseState {
    /// Moves the case machine over one event and returns what it contributes.
    pub fn advance(&mut self, event: CaseEvent, koi8u: bool) -> (score: i64)
        ensures
            *final(self) == non_latin_case_next(*old(self), event),
            score == non_latin_case_score(*old(self), event, koi8u),
    {
        let mut score: i64 = 0;
        match event {
            CaseEvent::Latin => {
                *self = NonLatinCaseState::Mix;
            },
            CaseEvent::Break => {
                match *self {
                    NonLatinCaseState::Space
                    | NonLatinCaseState::Upper
                    | NonLatinCaseState::Lower
                    | NonLatinCaseState::UpperLowerCamel => {},
                    NonLatinCaseState::UpperLower => {
                        score = NON_LATIN_CAPITALIZATION_BONUS;
                    },
                    NonLatinCaseState::LowerUpper => {
                        score = NON_LATIN_IMPLAUSIBLE_CASE_TRANSITION_PENALTY;
                    },
                    NonLatinCaseState::LowerUpperLower => {
                        score = NON_LATIN_CAMEL_PENALTY;
                    },
                    NonLatinCaseState::AllCaps => {
                        if koi8u {
                            score = NON_LATIN_ALL_CAPS_PENALTY;
                        }
                    },
                    NonLatinCaseState::Mix | NonLatinCaseState::LowerUpperUpper => {
                        score = NON_LATIN_MIXED_CASE_PENALTY;
                    },
                }
                *self = NonLatinCaseState::Space;
            },
            CaseEvent::LowerLetter => {
                match *self {
                    NonLatinCaseState::Space => {
                        *self = NonLatinCaseState::Lower;
                    },
                    NonLatinCaseState::Upper => {
                        *self = NonLatinCaseState::UpperLower;
                    },
                    NonLatinCaseState::Lower
                    | NonLatinCaseState::UpperLower
                    | NonLatinCaseState::UpperLowerCamel => {},
                    NonLatinCaseState::LowerUpper => {
                        score = NON_LATIN_CAMEL_PENALTY;
                        *self = NonLatinCaseState::LowerUpperLower;
                    },
                    NonLatinCaseState::LowerUpperUpper => {
                        score = NON_LATIN_MIXED_CASE_PENALTY;
                        *self = NonLatinCaseState::Mix;
                    },
                    NonLatinCaseState::LowerUpperLower => {
                        score = NON_LATIN_CAMEL_PENALTY;
                        *self = NonLatinCaseState::UpperLowerCamel;
                    },
                    NonLatinCaseState::AllCaps => {
                        score = NON_LATIN_IMPLAUSIBLE_CASE_TRANSITION_PENALTY;
                        *self = NonLatinCaseState::Mix;
                    },
                    NonLatinCaseState::Mix => {
                        score = NON_LATIN_MIXED_CASE_PENALTY;
                    },
                }
            },
            CaseEvent::UpperLetter => {
                match *self {
                    NonLatinCaseState::Space => {
                        *self = NonLatinCaseState::Upper;
                    },
                    NonLatinCaseState::Upper => {
                        *self = NonLatinCaseState::AllCaps;
                    },
                    NonLatinCaseState::Lower
                    | NonLatinCaseState::UpperLower
                    | NonLatinCaseState::UpperLowerCamel => {
                        *self = NonLatinCaseState::LowerUpper;
                    },
                    NonLatinCaseState::LowerUpper => {
                        score = NON_LATIN_IMPLAUSIBLE_CASE_TRANSITION_PENALTY;
                        *self = NonLatinCaseState::LowerUpperUpper;
                    },
                    NonLatinCaseState::LowerUpperUpper | NonLatinCaseState::Mix => {
                        score = NON_LATIN_MIXED_CASE_PENALTY;
                    },
                    NonLatinCaseState::LowerUpperLower => {
                        score = NON_LATIN_IMPLAUSIBLE_CASE_TRANSITION_PENALTY;
                        *self = NonLatinCaseState::Mix;
                    },
                    NonLatinCaseState::AllCaps => {},
                }
            },
        }
        score
    }
}

/// A scoring state machine for one encoding of a cased non-Latin script.
pub struct NonLatinCasedCandidate {
    data: &'static SingleByteData,
    prev: u8,
    case_state: NonLatinCaseState,
    prev_ascii: bool,
    current_word_len: u64,
    longest_word: u64,
}

impl View for NonLatinCasedCandidate {
    type V = NonLatinCasedState;

    closed spec fn view(&self) -> NonLatinCasedState {
        NonLatinCasedState {
            prev: self.prev,
            case_state: self.case_state,
            prev_ascii: self.prev_ascii,
            current_word_len: self.current_word_len as nat,
            longest_word: self.longest_word as nat,
        }
    }
}

impl NonLatinCasedCandidate {
    /// The tables this candidate scores with.
    pub closed spec fn table(&self) -> TableView {
        self.data@
    }

    /// The tables are complete.
    pub closed spec fn wf(&self) -> bool {
        self.data.wf()
    }

    /// The state before any byte.
    pub open spec fn initial() -> NonLatinCasedState {
        NonLatinCasedState {
            prev: 0,
            case_state: NonLatinCaseState::Space,
            prev_ascii: true,
            current_word_len: 0,
            longest_word: 0,
        }
    }

    /// A candidate at the start of a stream.
    pub fn new(data: &'static SingleByteData) -> (r: Self)
        requires
            data.wf(),
        ensures
            r.wf(),
            r.table() == data@,
            r@ == Self::initial(),
    {
        NonLatinCasedCandidate {
            data,
            prev: 0,
            case_state: NonLatinCaseState::Space,
            prev_ascii: true,
            current_word_len: 0,
            longest_word: 0,
        }
    }

    /// The encoding this candidate stands for.
    pub fn encoding(&self) -> (r: EncodingId)
        ensures
            r == self.table().encoding,
    {
        self.data.encoding()
    }

    /// Length of the longest word finished so far.
    pub fn longest_word(&self) -> (r: u64)
        ensures
            r == self@.longest_word,
    {
        self.longest_word
    }

    /// Shows `buffer` to the candidate. Returns the score the buffer
    /// contributes, or `None` if it holds a byte the encoding cannot
    /// represent.
    pub fn feed(&mut self, buffer: &[u8]) -> (r: Option<i64>)
        requires
            old(self).wf(),
            old(self)@.current_word_len + buffer@.len() <= STREAM_LIMIT,
        ensures
            final(self).wf(),
            final(self).table() == old(self).table(),
            (final(self)@, as_int(r)) == run(
                non_latin_cased_stepper(old(self).table()),
                old(self)@,
                buffer@,
            ),
            r is None <==> exists|i: int|
                0 <= i < buffer@.len() && old(self).table().classify(#[trigger] buffer@[i])
                    == INVALID_CLASS,
            final(self)@.current_word_len <= old(self)@.current_word_len + buffer@.len(),
            r is Some ==> -STEP_LIMIT * buffer@.len() <= r->0 <= STEP_LIMIT * buffer@.len(),
    {
        let ghost t = self.table();
        let ghost step = non_latin_cased_stepper(t);
        let ghost start = self@;
        let ghost bytes = buffer@;
        proof {
            assert(shift(0, run(step, start, bytes)) == run(step, start, bytes));
            assert(bytes.subrange(0, bytes.len() as int) =~= bytes);
        }
        let koi8u = self.data.encoding() == EncodingId::Koi8U;
        let mut score: i64 = 0;
        let mut i: usize = 0;
        while i < buffer.len()
            invariant
                0 <= i <= buffer.len(),
                bytes == buffer@,
                t == old(self).table(),
                start == old(self)@,
                bytes.len() + start.current_word_len <= STREAM_LIMIT,
                self.wf(),
                self.table() == t,
                koi8u == (t.encoding == EncodingId::Koi8U),
                step == non_latin_cased_stepper(t),
                run(step, start, bytes) == shift(
                    score as int,
                    run(step, self@, bytes.subrange(i as int, bytes.len() as int)),
                ),
                self@.current_word_len <= start.current_word_len + i,
                -0x1_0000 * i <= score <= 0x1_0000 * i,
            decreases buffer.len() - i,
        {
            let b = buffer[i];
            let ghost rest = bytes.subrange(i as int, bytes.len() as int);
            proof {
                assert(rest[0] == b);
                assert(rest.skip(1) =~= bytes.subrange(i + 1, bytes.len() as int));
            }
            let class = self.data.classify(b);
            if class == INVALID_CLASS {
                proof {
                    lemma_invalid_byte_rejects(t, step, start, bytes);
                }
                return None;
            }
            let caseless_class = class & 0x7F;
            let ascii = b < 0x80;
            let ascii_pair = self.prev_ascii && ascii;
            let non_ascii_alphabetic = self.data.is_non_latin_alphabetic(caseless_class);
            let event = if caseless_class == LATIN_LETTER {
                CaseEvent::Latin
            } else if !non_ascii_alphabetic {
                CaseEvent::Break
            } else if class < 0x80 {
                CaseEvent::LowerLetter
            } else {
                CaseEvent::UpperLetter
            };
            score += self.case_state.advance(event, koi8u);
            if non_ascii_alphabetic {
                self.current_word_len += 1;
            } else {
                if self.current_word_len > self.longest_word {
                    self.longest_word = self.current_word_len;
                }
                self.current_word_len = 0;
            }
            if !ascii_pair {
                score += self.data.score(caseless_class, self.prev);
                score +=
                latin_adjacency_penalty(self.data, caseless_class, self.prev, non_ascii_alphabetic);
            }
            self.prev_ascii = ascii;
            self.prev = caseless_class;
            i += 1;
        }
        proof {
            lemma_invalid_byte_rejects(t, step, start, bytes);
        }
        Some(score)
    }

    /// Shows `buffer` to the candidate and, if `last` is set, the space that
    /// stands for the end of the stream.
    pub fn feed_with_end(&mut self, buffer: &[u8], last: bool) -> (r: Option<i64>)
        requires
            old(self).wf(),
            old(self)@.current_word_len + buffer@.len() + 1 <= STREAM_LIMIT,
        ensures
            final(self).wf(),
            final(self).table() == old(self).table(),
            (final(self)@, as_int(r)) == run(
                non_latin_cased_stepper(old(self).table()),
                old(self)@,
                buffer@ + ending(last),
            ),
            final(self)@.current_word_len <= old(self)@.current_word_len + buffer@.len() + 1,
            r is Some ==> -STEP_LIMIT * (buffer@.len() + 1) <= r->0 <= STEP_LIMIT * (buffer@.len()
                + 1),
    {
        let space = [END_OF_STREAM];
        proof {
            assert(buffer@ + Seq::<u8>::empty() =~= buffer@);
            assert(space@ =~= seq![END_OF_STREAM]);
            lemma_run_concat(
                non_latin_cased_stepper(self.table()),
                self@,
                buffer@,
                seq![END_OF_STREAM],
            );
        }
        match self.feed(buffer) {
            Some(new_score) => {
                if last {
                    match self.feed(space.as_slice()) {
                        Some(additional_score) => Some(new_score + additional_score),
                        None => None,
                    }
                } else {
                    Some(new_score)
                }
            },
            None => None,
        }
    }
}

} // verus!
