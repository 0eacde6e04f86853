//! The candidate for Shift_JIS.
//!
//! The lead byte `0x92` is the right single quotation mark of windows-1252,
//! so a kanji decoded from it may be no kanji at all. Its score is held back
//! until the next character shows whether the text goes on in Japanese.

use crate::cjk::{
    LatinCj, Unit, after_cj, after_letter, cjk_extra_score, decoded, decoder_after, decoder_end,
    extra_score, is_ascii_letter, is_half_width_katakana, is_ideograph, is_private_use,
    lemma_rejected_early, other_score, problematic_lead, reports, CJK_BASE_SCORE,
    CJK_LATIN_ADJACENCY_PENALTY, CJK_OTHER, CJK_SECONDARY_BASE_SCORE, CJ_PUNCTUATION,
    HALF_WIDTH_KATAKANA_PENALTY,
};
use crate::encoding::MultiByte;
use crate::outside::{decode_to_utf16, decoder_finished, new_decoder, DecodeStatus, Decoded};
use crate::scan::{as_int, lemma_run_push, run, Step, STEP_LIMIT, STREAM_LIMIT};
use vstd::prelude::*;
use vstd::slice::slice_subrange;

verus! {

/// Score of a kana.
pub const SHIFT_JIS_SCORE_PER_KANA: i64 = 20;

/// Score of a kanji of the first level of JIS X 0208.
pub const SHIFT_JIS_SCORE_PER_LEVEL_1_KANJI: i64 = CJK_BASE_SCORE;

/// Score of a kanji of the second level of JIS X 0208.
pub const SHIFT_JIS_SCORE_PER_LEVEL_2_KANJI: i64 = CJK_SECONDARY_BASE_SCORE;

/// Penalty for a character of the private use area.
pub const SHIFT_JIS_PUA_PENALTY: i64 = -(CJK_BASE_SCORE * 10);

/// Largest score that can be held back: that of a kanji of the first level
/// with the highest bonus.
pub const SHIFT_JIS_MAX_PENDING: i64 = CJK_BASE_SCORE + 8;

/// What a Shift_JIS candidate remembers between bytes.
pub struct ShiftJisState {
    /// Whether a character outside ASCII has been decoded.
    pub non_ascii_seen: bool,
    pub prev: LatinCj,
    /// The previous byte of the stream.
    pub prev_byte: u8,
    /// The score of a kanji that is held back, if one is.
    pub pending_score: Option<int>,
}

/// What a decoded character does to a Shift_JIS candidate.
pub struct ShiftJisWritten {
    pub prev: LatinCj,
    pub pending_score: Option<int>,
    pub score: int,
}

/// A score that is held back lies between nothing and the most a kanji can
/// earn.
pub open spec fn shift_jis_wf(s: ShiftJisState) -> bool {
    match s.pending_score {
        Some(p) => 0 <= p <= SHIFT_JIS_MAX_PENDING,
        None => true,
    }
}

/// Whether `d` holds the first character outside ASCII that the candidate
/// sees.
pub open spec fn shift_jis_first_non_ascii(s: ShiftJisState, d: Decoded) -> bool {
    d.written > 0 && !s.non_ascii_seen && d.first >= 0x80
}

/// The score that is released when the text goes on in Japanese.
pub open spec fn released(s: ShiftJisState) -> int {
    match s.pending_score {
        Some(p) => p,
        None => 0,
    }
}

/// The score of a kanji from the level its two bytes lie in.
pub open spec fn shift_jis_kanji_score(frequent: Seq<u16>, lead: u8, trail: u8, u: u16) -> int {
    if lead < 0x98 || (lead == 0x98 && trail < 0x73) {
        SHIFT_JIS_SCORE_PER_LEVEL_1_KANJI + extra_score(u, frequent)
    } else {
        SHIFT_JIS_SCORE_PER_LEVEL_2_KANJI as int
    }
}

/// Whether the score of a kanji is held back: its lead byte is the
/// problematic one and it does not follow a Japanese character.
pub open spec fn holds_back(s: ShiftJisState) -> bool {
    s.prev != LatinCj::Cj && s.prev_byte == 0x92
}

/// What the character the decoder wrote, if it wrote one, does to the
/// candidate.
pub open spec fn shift_jis_written(frequent: Seq<u16>, s: ShiftJisState, b: u8, d: Decoded)
    -> ShiftJisWritten {
    let u = d.first;
    if d.written == 0 {
        ShiftJisWritten { prev: s.prev, pending_score: s.pending_score, score: 0 }
    } else if is_ascii_letter(u) {
        ShiftJisWritten { prev: LatinCj::AsciiLetter, pending_score: None, score: after_cj(s.prev) }
    } else if is_half_width_katakana(u) {
        ShiftJisWritten {
            prev: LatinCj::Cj,
            pending_score: None,
            score: HALF_WIDTH_KATAKANA_PENALTY as int,
        }
    } else if 0x3040 <= u < 0x3100 {
        ShiftJisWritten {
            prev: LatinCj::Cj,
            pending_score: None,
            score: released(s) + SHIFT_JIS_SCORE_PER_KANA + after_letter(s.prev),
        }
    } else if is_ideograph(u) {
        if holds_back(s) {
            ShiftJisWritten {
                prev: LatinCj::Cj,
                pending_score: Some(shift_jis_kanji_score(frequent, s.prev_byte, b, u)),
                score: released(s) + after_letter(s.prev),
            }
        } else {
            ShiftJisWritten {
                prev: LatinCj::Cj,
                pending_score: None,
                score: released(s) + shift_jis_kanji_score(frequent, s.prev_byte, b, u)
                    + after_letter(s.prev),
            }
        }
    } else if is_private_use(u) {
        ShiftJisWritten {
            prev: LatinCj::Other,
            pending_score: None,
            score: SHIFT_JIS_PUA_PENALTY as int,
        }
    } else {
        ShiftJisWritten { prev: LatinCj::Other, pending_score: None, score: other_score(u, false) }
    }
}

/// One byte shown to a Shift_JIS candidate, with what the decoder made of
/// it. The byte is rejected if the decoder reports anything but the end of
/// its input, or if the first character outside ASCII is a half-width
/// katakana.
pub open spec fn shift_jis_step(frequent: Seq<u16>, s: ShiftJisState, unit: Unit) -> Option<
    (ShiftJisState, int),
> {
    let d = unit.decoded;
    let written = shift_jis_written(frequent, s, unit.byte, d);
    if d.status != DecodeStatus::InputEmpty || (shift_jis_first_non_ascii(s, d)
        && is_half_width_katakana(d.first)) {
        None
    } else {
        Some(
            (
                ShiftJisState {
                    non_ascii_seen: s.non_ascii_seen || (d.written > 0 && d.first >= 0x80),
                    prev: written.prev,
                    prev_byte: unit.byte,
                    pending_score: written.pending_score,
                },
                written.score,
            ),
        )
    }
}

/// The step of a Shift_JIS candidate over the table `frequent` of frequent
/// kanji.
pub open spec fn shift_jis_stepper(frequent: Seq<u16>) -> Step<ShiftJisState, Unit> {
    |s: ShiftJisState, unit: Unit| shift_jis_step(frequent, s, unit)
}

/// A scoring state machine for Shift_JIS.
pub struct ShiftJisCandidate {
    decoder: encoding_rs::Decoder,
    non_ascii_seen: bool,
    prev: LatinCj,
    prev_byte: u8,
    pending_score: Option<i64>,
    frequent: &'static [u16; 128],
}

impl View for ShiftJisCandidate {
    type V = ShiftJisState;

    closed spec fn view(&self) -> ShiftJisState {
        ShiftJisState {
            non_ascii_seen: self.non_ascii_seen,
            prev: self.prev,
            prev_byte: self.prev_byte,
            pending_score: as_int(self.pending_score),
        }
    }
}

impl ShiftJisCandidate {
    /// The table of frequent kanji.
    pub closed spec fn frequent(&self) -> Seq<u16> {
        self.frequent@
    }

    /// The state of the decoder.
    pub closed spec fn decoder(&self) -> encoding_rs::Decoder {
        self.decoder
    }

    /// Whether the decoder has been closed at the end of a stream.
    pub closed spec fn finished(&self) -> bool {
        decoder_finished(self.decoder)
    }

    /// The score held back, if any, is one a kanji can earn.
    pub open spec fn wf(&self) -> bool {
        shift_jis_wf(self@)
    }

    /// The state before any byte.
    pub open spec fn initial() -> ShiftJisState {
        ShiftJisState {
            non_ascii_seen: false,
            prev: LatinCj::Other,
            prev_byte: 0,
            pending_score: None,
        }
    }

    /// A candidate at the start of a stream.
    pub fn new(frequent: &'static [u16; 128]) -> (r: Self)
        ensures
            r@ == Self::initial(),
            r.frequent() == frequent@,
            r.wf(),
            !r.finished(),
    {
        ShiftJisCandidate {
            decoder: new_decoder(MultiByte::ShiftJis),
            non_ascii_seen: false,
            prev: LatinCj::Other,
            prev_byte: 0,
            pending_score: None,
            frequent,
        }
    }

    /// Either returns the score `s` of a kanji, or holds it back and returns
    /// nothing for now.
    pub fn maybe_set_as_pending(&mut self, s: i64) -> (r: i64)
        requires
            old(self)@.pending_score is None,
        ensures
            final(self).frequent() == old(self).frequent(),
            final(self).decoder() == old(self).decoder(),
            final(self).finished() == old(self).finished(),
            final(self)@ == (ShiftJisState {
                pending_score: if holds_back(old(self)@) {
                    Some(s as int)
                } else {
                    None
                },
                ..old(self)@
            }),
            r == if holds_back(old(self)@) {
                0
            } else {
                s
            },
    {
        if self.prev == LatinCj::Cj || !problematic_lead(self.prev_byte) {
            s
        } else {
            self.pending_score = Some(s);
            0
        }
    }

    /// Scores the byte `b`, for which the decoder reported `d`. Returns what
    /// the byte contributes, or `None`, leaving the candidate as it was, if
    /// the byte is rejected.
    pub fn score_unit(&mut self, b: u8, d: Decoded) -> (r: Option<i64>)
        requires
            old(self).wf(),
        ensures
            final(self).wf(),
            final(self).frequent() == old(self).frequent(),
            final(self).decoder() == old(self).decoder(),
            final(self).finished() == old(self).finished(),
            match shift_jis_step(old(self).frequent(), old(self)@, Unit { byte: b, decoded: d }) {
                Some(next) => final(self)@ == next.0 && as_int(r) == Some(next.1),
                None => final(self)@ == old(self)@ && r is None,
            },
            r is Some ==> -STEP_LIMIT <= r->0 <= STEP_LIMIT,
    {
        match d.status {
            DecodeStatus::InputEmpty => {},
            _ => {
                return None;
            },
        }
        let mut score: i64 = 0;
        if d.written > 0 {
            let u = d.first;
            if !self.non_ascii_seen && u >= 0x80 {
                if u >= 0xFF61 && u <= 0xFF9F {
                    return None;
                }
                self.non_ascii_seen = true;
            }
            if (u >= 0x61 && u <= 0x7A) || (u >= 0x41 && u <= 0x5A) {
                self.pending_score = None;
                if self.prev == LatinCj::Cj {
                    score += CJK_LATIN_ADJACENCY_PENALTY;
                }
                self.prev = LatinCj::AsciiLetter;
            } else if u >= 0xFF61 && u <= 0xFF9F {
                self.pending_score = None;
                score += HALF_WIDTH_KATAKANA_PENALTY;
                self.prev = LatinCj::Cj;
            } else if u >= 0x3040 && u < 0x3100 {
                if let Some(pending) = self.pending_score {
                    score += pending;
                    self.pending_score = None;
                }
                score += SHIFT_JIS_SCORE_PER_KANA;
                if self.prev == LatinCj::AsciiLetter {
                    score += CJK_LATIN_ADJACENCY_PENALTY;
                }
                self.prev = LatinCj::Cj;
            } else if (u >= 0x3400 && u < 0xA000) || (u >= 0xF900 && u < 0xFB00) {
                if let Some(pending) = self.pending_score {
                    score += pending;
                    self.pending_score = None;
                }
                if self.prev_byte < 0x98 || (self.prev_byte == 0x98 && b < 0x73) {
                    let kanji = SHIFT_JIS_SCORE_PER_LEVEL_1_KANJI + cjk_extra_score(
                        u,
                        self.frequent,
                    );
                    score += self.maybe_set_as_pending(kanji);
                } else {
                    score += self.maybe_set_as_pending(SHIFT_JIS_SCORE_PER_LEVEL_2_KANJI);
                }
                if self.prev == LatinCj::AsciiLetter {
                    score += CJK_LATIN_ADJACENCY_PENALTY;
                }
                self.prev = LatinCj::Cj;
            } else if u >= 0xE000 && u < 0xF900 {
                self.pending_score = None;
                score += SHIFT_JIS_PUA_PENALTY;
                self.prev = LatinCj::Other;
            } else {
                self.pending_score = None;
                if u == 0x3000 || u == 0x3001 || u == 0x3002 || u == 0xFF08 || u == 0xFF09 {
                    score += CJ_PUNCTUATION;
                } else if u > 0x7F {
                    score += CJK_OTHER;
                }
                self.prev = LatinCj::Other;
            }
        }
        self.prev_byte = b;
        Some(score)
    }

    /// Shows `buffer` to the candidate, byte by byte through its decoder, and
    /// closes the decoder if `last` is set. Returns the score the buffer
    /// contributes, or `None` if a byte or the end was rejected: the fold of
    /// [`shift_jis_step`] over the bytes with what the decoder reports of each.
    pub fn feed(&mut self, buffer: &[u8], last: bool) -> (r: Option<i64>)
        requires
            !old(self).finished(),
            old(self).wf(),
            buffer@.len() <= STREAM_LIMIT,
        ensures
            final(self).frequent() == old(self).frequent(),
            final(self).wf(),
            (final(self)@, as_int(r)) == decoded(
                shift_jis_stepper(old(self).frequent()),
                old(self)@,
                old(self).decoder(),
                buffer@,
                last,
            ),
            r is Some ==> final(self).decoder() == decoder_end(
                old(self).decoder(),
                buffer@,
                last,
            ),
            !last ==> !final(self).finished(),
            r is Some ==> -STEP_LIMIT * buffer@.len() <= r->0 <= STEP_LIMIT * buffer@.len(),
    {
        let ghost frequent = self.frequent();
        let ghost step = shift_jis_stepper(frequent);
        let ghost start = self@;
        let ghost first = self.decoder();
        let ghost bytes = buffer@;
        let mut score: i64 = 0;
        let mut i: usize = 0;
        while i < buffer.len()
            invariant
                0 <= i <= buffer.len(),
                bytes == buffer@,
                bytes.len() <= STREAM_LIMIT,
                start == old(self)@,
                first == old(self).decoder(),
                frequent == old(self).frequent(),
                self.frequent() == frequent,
                self.wf(),
                !self.finished(),
                step == shift_jis_stepper(frequent),
                self.decoder() == decoder_after(first, bytes.take(i as int)),
                run(step, start, reports(first, bytes.take(i as int))) == (
                    self@,
                    Some(score as int),
                ),
                -0x1_0000 * i <= score <= 0x1_0000 * i,
            decreases buffer.len() - i,
        {
            let b = buffer[i];
            let d = decode_to_utf16(&mut self.decoder, slice_subrange(buffer, i, i + 1), false);
            proof {
                let seen = bytes.take(i as int);
                let unit = Unit { byte: b, decoded: d };
                assert(bytes.subrange(i as int, i + 1) =~= seq![b]);
                assert(bytes.take(i + 1).drop_last() =~= seen);
                assert(bytes.take(i + 1).last() == b);
                lemma_run_push(step, start, reports(first, seen), unit);
                assert(step(self@, unit) == shift_jis_step(frequent, self@, unit));
            }
            match self.score_unit(b, d) {
                Some(x) => {
                    score += x;
                },
                None => {
                    proof {
                        lemma_rejected_early(step, start, first, bytes, i + 1, last);
                    }
                    return None;
                },
            }
            i += 1;
        }
        proof {
            assert(bytes.take(bytes.len() as int) =~= bytes);
            assert(bytes.subrange(0, 0) =~= Seq::<u8>::empty());
        }
        if last {
            let d = decode_to_utf16(&mut self.decoder, slice_subrange(buffer, 0, 0), true);
            match d.status {
                DecodeStatus::InputEmpty => {},
                _ => {
                    return None;
                },
            }
        }
        Some(score)
    }
}

} // verus!
