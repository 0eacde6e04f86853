//! The candidate for EUC-KR.

use crate::cjk::{
    LatinKorean, Unit, cjk_extra_score, decoded, decoder_after, decoder_end, extra_score,
    is_ascii_letter, lemma_rejected_early, reports, CJK_BASE_SCORE, CJK_LATIN_ADJACENCY_PENALTY,
    CJK_OTHER,
};
use crate::encoding::MultiByte;
use crate::outside::{decode_to_utf16, decoder_finished, new_decoder, DecodeStatus, Decoded};
use crate::scan::{as_int, lemma_run_push, run, Step, STEP_LIMIT, STREAM_LIMIT};
use vstd::prelude::*;
use vstd::slice::slice_subrange;

verus! {

/// Score of a syllable whose two bytes lie in the EUC range.
pub const EUC_KR_SCORE_PER_EUC_HANGUL: i64 = CJK_BASE_SCORE + 1;

/// Score of a syllable of the extension beyond the EUC range: a fifth of the
/// secondary base score.
pub const EUC_KR_SCORE_PER_NON_EUC_HANGUL: i64 = 4;

/// Score of a hanja: half the secondary base score.
pub const EUC_KR_SCORE_PER_HANJA: i64 = 10;

/// Penalty for a hanja directly after a syllable.
pub const EUC_KR_HANJA_AFTER_HANGUL_PENALTY: i64 = -(CJK_BASE_SCORE * 10);

/// Penalty for each character of a word beyond its fifth.
pub const EUC_KR_LONG_WORD_PENALTY: i64 = -6;

/// Number of characters a word can have without penalty.
pub const EUC_KR_WORD_LENGTH: u64 = 5;

/// What an EUC-KR candidate remembers between bytes.
pub struct EucKrState {
    /// Whether the previous byte lay in the EUC range.
    pub prev_was_euc_range: bool,
    pub prev: LatinKorean,
    /// Number of syllables and hanja in the word being read.
    pub current_word_len: nat,
}

/// What a decoded character does to an EUC-KR candidate.
pub struct EucKrWritten {
    pub prev: LatinKorean,
    pub current_word_len: nat,
    pub score: int,
}

/// `0xA1` to `0xFE`.
pub open spec fn in_euc_range(b: u8) -> bool {
    0xA1 <= b <= 0xFE
}

/// The modern precomposed syllables.
pub open spec fn is_hangul(u: u16) -> bool {
    0xAC00 <= u <= 0xD7A3
}

/// The ideographs as Korean text uses them.
pub open spec fn is_hanja(u: u16) -> bool {
    (0x4E00 <= u < 0xAC00) || (0xF900 <= u <= 0xFA0B)
}

/// The penalty for a word that has grown to `len` characters.
pub open spec fn long_word(len: nat) -> int {
    if len > EUC_KR_WORD_LENGTH {
        EUC_KR_LONG_WORD_PENALTY as int
    } else {
        0
    }
}

/// What the character the decoder wrote, if it wrote one, does to the
/// candidate.
pub open spec fn euc_kr_written(frequent: Seq<u16>, s: EucKrState, b: u8, d: Decoded)
    -> EucKrWritten {
    let u = d.first;
    if d.written == 0 {
        EucKrWritten { prev: s.prev, current_word_len: s.current_word_len, score: 0 }
    } else if is_ascii_letter(u) {
        EucKrWritten {
            prev: LatinKorean::AsciiLetter,
            current_word_len: 0,
            score: if s.prev == LatinKorean::Hangul || s.prev == LatinKorean::Hanja {
                CJK_LATIN_ADJACENCY_PENALTY as int
            } else {
                0
            },
        }
    } else if is_hangul(u) {
        EucKrWritten {
            prev: LatinKorean::Hangul,
            current_word_len: s.current_word_len + 1,
            score: if s.prev_was_euc_range && in_euc_range(b) {
                EUC_KR_SCORE_PER_EUC_HANGUL + extra_score(u, frequent)
            } else {
                EUC_KR_SCORE_PER_NON_EUC_HANGUL as int
            } + if s.prev == LatinKorean::AsciiLetter {
                CJK_LATIN_ADJACENCY_PENALTY as int
            } else {
                0
            } + long_word(s.current_word_len + 1),
        }
    } else if is_hanja(u) {
        EucKrWritten {
            prev: LatinKorean::Hanja,
            current_word_len: s.current_word_len + 1,
            score: EUC_KR_SCORE_PER_HANJA + if s.prev == LatinKorean::AsciiLetter {
                CJK_LATIN_ADJACENCY_PENALTY as int
            } else if s.prev == LatinKorean::Hangul {
                EUC_KR_HANJA_AFTER_HANGUL_PENALTY as int
            } else {
                0
            } + long_word(s.current_word_len + 1),
        }
    } else {
        EucKrWritten {
            prev: LatinKorean::Other,
            current_word_len: 0,
            score: if u >= 0x80 {
                CJK_OTHER as int
            } else {
                0
            },
        }
    }
}

/// One byte shown to an EUC-KR candidate, with what the decoder made of it.
/// A byte on which the decoder reports anything but the end of its input is
/// rejected.
pub open spec fn euc_kr_step(frequent: Seq<u16>, s: EucKrState, unit: Unit) -> Option<
    (EucKrState, int),
> {
    let written = euc_kr_written(frequent, s, unit.byte, unit.decoded);
    if unit.decoded.status != DecodeStatus::InputEmpty {
        None
    } else {
        Some(
            (
                EucKrState {
                    prev_was_euc_range: in_euc_range(unit.byte),
                    prev: written.prev,
                    current_word_len: written.current_word_len,
                },
                written.score,
            ),
        )
    }
}

/// The step of an EUC-KR candidate over the table `frequent` of frequent
/// syllables.
pub open spec fn euc_kr_stepper(frequent: Seq<u16>) -> Step<EucKrState, Unit> {
    |s: EucKrState, unit: Unit| euc_kr_step(frequent, s, unit)
}

/// A scoring state machine for EUC-KR.
pub struct EucKrCandidate {
    decoder: encoding_rs::Decoder,
    prev_was_euc_range: bool,
    prev: LatinKorean,
    current_word_len: u64,
    frequent: &'static [u16; 128],
}

impl View for EucKrCandidate {
    type V = EucKrState;

    closed spec fn view(&self) -> EucKrState {
        EucKrState {
            prev_was_euc_range: self.prev_was_euc_range,
            prev: self.prev,
            current_word_len: self.current_word_len as nat,
        }
    }
}

impl EucKrCandidate {
    /// The table of frequent syllables.
    pub closed spec fn frequent(&self) -> Seq<u16> {
        self.frequent@
    }

    /// The state of the decoder.
    pub closed spec fn decoder(&self) -> encoding_rs::Decoder {
        self.decoder
    }

    /// Whether the decoder has been closed at the end of a stream.
    pub closed spec fn finished(&self) -> bool {
        decoder_finished(self.decoder)
    }

    /// The state before any byte.
    pub open spec fn initial() -> EucKrState {
        EucKrState { prev_was_euc_range: false, prev: LatinKorean::Other, current_word_len: 0 }
    }

    /// A candidate at the start of a stream.
    pub fn new(frequent: &'static [u16; 128]) -> (r: Self)
        ensures
            r@ == Self::initial(),
            r.frequent() == frequent@,
            !r.finished(),
    {
        EucKrCandidate {
            decoder: new_decoder(MultiByte::EucKr),
            prev_was_euc_range: false,
            prev: LatinKorean::Other,
            current_word_len: 0,
            frequent,
        }
    }

    /// Scores the byte `b`, for which the decoder reported `d`. Returns what
    /// the byte contributes, or `None`, leaving the candidate as it was, if
    /// the decoder did not accept the byte.
    pub fn score_unit(&mut self, b: u8, d: Decoded) -> (r: Option<i64>)
        requires
            old(self)@.current_word_len < STREAM_LIMIT,
        ensures
            final(self).frequent() == old(self).frequent(),
            final(self).decoder() == old(self).decoder(),
            final(self).finished() == old(self).finished(),
            match euc_kr_step(old(self).frequent(), old(self)@, Unit { byte: b, decoded: d }) {
                Some(next) => final(self)@ == next.0 && as_int(r) == Some(next.1),
                None => final(self)@ == old(self)@ && r is None,
            },
            final(self)@.current_word_len <= old(self)@.current_word_len + 1,
            r is Some ==> -STEP_LIMIT <= r->0 <= STEP_LIMIT,
    {
        match d.status {
            DecodeStatus::InputEmpty => {},
            _ => {
                return None;
            },
        }
        let in_euc_range = b >= 0xA1 && b <= 0xFE;
        let mut score: i64 = 0;
        if d.written > 0 {
            let u = d.first;
            if (u >= 0x61 && u <= 0x7A) || (u >= 0x41 && u <= 0x5A) {
                match self.prev {
                    LatinKorean::Hangul | LatinKorean::Hanja => {
                        score += CJK_LATIN_ADJACENCY_PENALTY;
                    },
                    _ => {},
                }
                self.prev = LatinKorean::AsciiLetter;
                self.current_word_len = 0;
            } else if u >= 0xAC00 && u <= 0xD7A3 {
                if self.prev_was_euc_range && in_euc_range {
                    score += EUC_KR_SCORE_PER_EUC_HANGUL;
                    score += cjk_extra_score(u, self.frequent);
                } else {
                    score += EUC_KR_SCORE_PER_NON_EUC_HANGUL;
                }
                if self.prev == LatinKorean::AsciiLetter {
                    score += CJK_LATIN_ADJACENCY_PENALTY;
                }
                self.prev = LatinKorean::Hangul;
                self.current_word_len += 1;
                if self.current_word_len > EUC_KR_WORD_LENGTH {
                    score += EUC_KR_LONG_WORD_PENALTY;
                }
            } else if (u >= 0x4E00 && u < 0xAC00) || (u >= 0xF900 && u <= 0xFA0B) {
                score += EUC_KR_SCORE_PER_HANJA;
                match self.prev {
                    LatinKorean::AsciiLetter => {
                        score += CJK_LATIN_ADJACENCY_PENALTY;
                    },
                    LatinKorean::Hangul => {
                        score += EUC_KR_HANJA_AFTER_HANGUL_PENALTY;
                    },
                    _ => {},
                }
                self.prev = LatinKorean::Hanja;
                self.current_word_len += 1;
                if self.current_word_len > EUC_KR_WORD_LENGTH {
                    score += EUC_KR_LONG_WORD_PENALTY;
                }
            } else {
                if u >= 0x80 {
                    score += CJK_OTHER;
                }
                self.prev = LatinKorean::Other;
                self.current_word_len = 0;
            }
        }
        self.prev_was_euc_range = in_euc_range;
        Some(score)
    }

    /// Shows `buffer` to the candidate, byte by byte through its decoder, and
    /// closes the decoder if `last` is set. Returns the score the buffer
    /// contributes, or `None` if a byte or the end was rejected: the fold of
    /// [`euc_kr_step`] over the bytes with what the decoder reports of each.
    pub fn feed(&mut self, buffer: &[u8], last: bool) -> (r: Option<i64>)
        requires
            !old(self).finished(),
            old(self)@.current_word_len + buffer@.len() <= STREAM_LIMIT,
        ensures
            final(self).frequent() == old(self).frequent(),
            final(self)@.current_word_len <= old(self)@.current_word_len + buffer@.len(),
            (final(self)@, as_int(r)) == decoded(
                euc_kr_stepper(old(self).frequent()),
                old(self)@,
                old(self).decoder(),
                buffer@,
                last,
            ),
            r is Some ==> final(self).decoder() == decoder_end(
                old(self).decoder(),
                buffer@,
                last,
            ),
            !last ==> !final(self).finished(),
            r is Some ==> -STEP_LIMIT * buffer@.len() <= r->0 <= STEP_LIMIT * buffer@.len(),
    {
        let ghost frequent = self.frequent();
        let ghost step = euc_kr_stepper(frequent);
        let ghost start = self@;
        let ghost first = self.decoder();
        let ghost bytes = buffer@;
        let mut score: i64 = 0;
        let mut i: usize = 0;
        while i < buffer.len()
            invariant
                0 <= i <= buffer.len(),
                bytes == buffer@,
                bytes.len() <= STREAM_LIMIT,
                start == old(self)@,
                first == old(self).decoder(),
                frequent == old(self).frequent(),
                self.frequent() == frequent,
                start.current_word_len + bytes.len() <= STREAM_LIMIT,
                self@.current_word_len <= start.current_word_len + i,
                !self.finished(),
                step == euc_kr_stepper(frequent),
                self.decoder() == decoder_after(first, bytes.take(i as int)),
                run(step, start, reports(first, bytes.take(i as int))) == (
                    self@,
                    Some(score as int),
                ),
                -0x1_0000 * i <= score <= 0x1_0000 * i,
            decreases buffer.len() - i,
        {
            let b = buffer[i];
            let d = decode_to_utf16(&mut self.decoder, slice_subrange(buffer, i, i + 1), false);
            proof {
                let seen = bytes.take(i as int);
                let unit = Unit { byte: b, decoded: d };
                assert(bytes.subrange(i as int, i + 1) =~= seq![b]);
                assert(bytes.take(i + 1).drop_last() =~= seen);
                assert(bytes.take(i + 1).last() == b);
                lemma_run_push(step, start, reports(first, seen), unit);
                assert(step(self@, unit) == euc_kr_step(frequent, self@, unit));
            }
            match self.score_unit(b, d) {
                Some(x) => {
                    score += x;
                },
                None => {
                    proof {
                        lemma_rejected_early(step, start, first, bytes, i + 1, last);
                    }
                    return None;
                },
            }
            i += 1;
        }
        proof {
            assert(bytes.take(bytes.len() as int) =~= bytes);
            assert(bytes.subrange(0, 0) =~= Seq::<u8>::empty());
        }
        if last {
            let d = decode_to_utf16(&mut self.decoder, slice_subrange(buffer, 0, 0), true);
            match d.status {
                DecodeStatus::InputEmpty => {},
                _ => {
                    return None;
                },
            }
        }
        Some(score)
    }
}

} // verus!
