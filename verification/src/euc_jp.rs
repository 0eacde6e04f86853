//! The candidate for EUC-JP.

use crate::cjk::{
    LatinCj, Unit, after_cj, after_letter, cjk_extra_score, decoded, decoder_after, decoder_end,
    extra_score, is_ascii_letter, is_half_width_katakana, is_ideograph, lemma_rejected_early,
    other_score, reports, CJK_BASE_SCORE, CJK_LATIN_ADJACENCY_PENALTY, CJK_OTHER,
    CJK_SECONDARY_BASE_SCORE, CJ_PUNCTUATION, HALF_WIDTH_KATAKANA_PENALTY,
};
use crate::encoding::MultiByte;
use crate::outside::{decode_to_utf16, decoder_finished, new_decoder, DecodeStatus, Decoded};
use crate::scan::{as_int, lemma_run_push, run, Step, STEP_LIMIT, STREAM_LIMIT};
use vstd::prelude::*;
use vstd::slice::slice_subrange;

verus! {

/// Score of a kana: the base score and a third of it.
pub const EUC_JP_SCORE_PER_KANA: i64 = 54;

/// Score of the kana wi and we, which modern text hardly uses: one less than
/// the base score.
pub const EUC_JP_SCORE_PER_NEAR_OBSOLETE_KANA: i64 = CJK_BASE_SCORE - 1;

/// Score of a kanji of the first level of JIS X 0208.
pub const EUC_JP_SCORE_PER_LEVEL_1_KANJI: i64 = CJK_BASE_SCORE;

/// Score of a kanji of the second level of JIS X 0208.
pub const EUC_JP_SCORE_PER_LEVEL_2_KANJI: i64 = CJK_SECONDARY_BASE_SCORE;

/// Score of a kanji of JIS X 0212: a quarter of the secondary base score.
pub const EUC_JP_SCORE_PER_OTHER_KANJI: i64 = 5;

/// Penalty for a stream whose first non-ASCII character is a kana, which
/// takes back the advantage a kana has over an ideograph: a third of the
/// base score and one.
pub const EUC_JP_INITIAL_KANA_PENALTY: i64 = -14;

/// What an EUC-JP candidate remembers between bytes.
pub struct EucJpState {
    /// Whether a character outside ASCII has been decoded.
    pub non_ascii_seen: bool,
    pub prev: LatinCj,
    /// The previous byte of the stream.
    pub prev_byte: u8,
    /// The byte before the previous one.
    pub prev_prev_byte: u8,
}

/// Whether `u` is the first character outside ASCII that the candidate sees.
pub open spec fn euc_jp_first_non_ascii(s: EucJpState, d: Decoded) -> bool {
    d.written > 0 && !s.non_ascii_seen && d.first >= 0x80
}

/// The hiragana and katakana that EUC-JP text is written in.
pub open spec fn is_euc_jp_kana(u: u16) -> bool {
    (0x3041 <= u <= 0x3093) || (0x30A1 <= u <= 0x30F6)
}

/// Hiragana and katakana wi and we.
pub open spec fn is_near_obsolete_kana(u: u16) -> bool {
    u == 0x3090 || u == 0x3091 || u == 0x30F0 || u == 0x30F1
}

/// The score of a kanji from the plane and the level its bytes lie in.
pub open spec fn euc_jp_kanji_score(frequent: Seq<u16>, s: EucJpState, u: u16) -> int {
    if s.prev_prev_byte == 0x8F {
        EUC_JP_SCORE_PER_OTHER_KANJI as int
    } else if s.prev_byte < 0xD0 {
        EUC_JP_SCORE_PER_LEVEL_1_KANJI + extra_score(u, frequent)
    } else {
        EUC_JP_SCORE_PER_LEVEL_2_KANJI as int
    }
}

/// The class and the score of what the decoder wrote, if it wrote anything.
pub open spec fn euc_jp_written(frequent: Seq<u16>, s: EucJpState, d: Decoded) -> (LatinCj, int) {
    let u = d.first;
    let initial = if euc_jp_first_non_ascii(s, d) && 0x3040 <= u < 0x3100 {
        EUC_JP_INITIAL_KANA_PENALTY as int
    } else {
        0
    };
    if d.written == 0 {
        (s.prev, 0)
    } else if is_ascii_letter(u) {
        (LatinCj::AsciiLetter, initial + after_cj(s.prev))
    } else if is_half_width_katakana(u) {
        (LatinCj::Other, initial + HALF_WIDTH_KATAKANA_PENALTY)
    } else if is_euc_jp_kana(u) {
        (
            LatinCj::Cj,
            initial + if is_near_obsolete_kana(u) {
                EUC_JP_SCORE_PER_NEAR_OBSOLETE_KANA as int
            } else {
                EUC_JP_SCORE_PER_KANA as int
            } + after_letter(s.prev),
        )
    } else if is_ideograph(u) {
        (LatinCj::Cj, initial + euc_jp_kanji_score(frequent, s, u) + after_letter(s.prev))
    } else {
        (LatinCj::Other, initial + other_score(u, false))
    }
}

/// One byte shown to an EUC-JP candidate, with what the decoder made of it.
/// The byte is rejected if the decoder reports anything but the end of its
/// input, or if the first character outside ASCII is a half-width katakana.
pub open spec fn euc_jp_step(frequent: Seq<u16>, s: EucJpState, unit: Unit) -> Option<
    (EucJpState, int),
> {
    let d = unit.decoded;
    let written = euc_jp_written(frequent, s, d);
    if d.status != DecodeStatus::InputEmpty || (euc_jp_first_non_ascii(s, d)
        && is_half_width_katakana(d.first)) {
        None
    } else {
        Some(
            (
                EucJpState {
                    non_ascii_seen: s.non_ascii_seen || (d.written > 0 && d.first >= 0x80),
                    prev: written.0,
                    prev_byte: unit.byte,
                    prev_prev_byte: s.prev_byte,
                },
                written.1,
            ),
        )
    }
}

/// The step of an EUC-JP candidate over the table `frequent` of frequent
/// kanji.
pub open spec fn euc_jp_stepper(frequent: Seq<u16>) -> Step<EucJpState, Unit> {
    |s: EucJpState, unit: Unit| euc_jp_step(frequent, s, unit)
}

/// A scoring state machine for EUC-JP.
pub struct EucJpCandidate {
    decoder: encoding_rs::Decoder,
    non_ascii_seen: bool,
    prev: LatinCj,
    prev_byte: u8,
    prev_prev_byte: u8,
    frequent: &'static [u16; 128],
}

impl View for EucJpCandidate {
    type V = EucJpState;

    closed spec fn view(&self) -> EucJpState {
        EucJpState {
            non_ascii_seen: self.non_ascii_seen,
            prev: self.prev,
            prev_byte: self.prev_byte,
            prev_prev_byte: self.prev_prev_byte,
        }
    }
}

impl EucJpCandidate {
    /// The table of frequent kanji.
    pub closed spec fn frequent(&self) -> Seq<u16> {
        self.frequent@
    }

    /// The state of the decoder.
    pub closed spec fn decoder(&self) -> encoding_rs::Decoder {
        self.decoder
    }

    /// Whether the decoder has been closed at the end of a stream.
    pub closed spec fn finished(&self) -> bool {
        decoder_finished(self.decoder)
    }

    /// The state before any byte.
    pub open spec fn initial() -> EucJpState {
        EucJpState { non_ascii_seen: false, prev: LatinCj::Other, prev_byte: 0, prev_prev_byte: 0 }
    }

    /// A candidate at the start of a stream.
    pub fn new(frequent: &'static [u16; 128]) -> (r: Self)
        ensures
            r@ == Self::initial(),
            r.frequent() == frequent@,
            !r.finished(),
    {
        EucJpCandidate {
            decoder: new_decoder(MultiByte::EucJp),
            non_ascii_seen: false,
            prev: LatinCj::Other,
            prev_byte: 0,
            prev_prev_byte: 0,
            frequent,
        }
    }

    /// Scores the byte `b`, for which the decoder reported `d`. Returns what
    /// the byte contributes, or `None`, leaving the candidate as it was, if
    /// the byte is rejected.
    pub fn score_unit(&mut self, b: u8, d: Decoded) -> (r: Option<i64>)
        ensures
            final(self).frequent() == old(self).frequent(),
            final(self).decoder() == old(self).decoder(),
            final(self).finished() == old(self).finished(),
            match euc_jp_step(old(self).frequent(), old(self)@, Unit { byte: b, decoded: d }) {
                Some(next) => final(self)@ == next.0 && as_int(r) == Some(next.1),
                None => final(self)@ == old(self)@ && r is None,
            },
            r is Some ==> -STEP_LIMIT <= r->0 <= STEP_LIMIT,
    {
        match d.status {
            DecodeStatus::InputEmpty => {},
            _ => {
                return None;
            },
        }
        let mut score: i64 = 0;
        if d.written > 0 {
            let u = d.first;
            if !self.non_ascii_seen && u >= 0x80 {
                if u >= 0xFF61 && u <= 0xFF9F {
                    return None;
                }
                self.non_ascii_seen = true;
                if u >= 0x3040 && u < 0x3100 {
                    score += EUC_JP_INITIAL_KANA_PENALTY;
                }
            }
            if (u >= 0x61 && u <= 0x7A) || (u >= 0x41 && u <= 0x5A) {
                if self.prev == LatinCj::Cj {
                    score += CJK_LATIN_ADJACENCY_PENALTY;
                }
                self.prev = LatinCj::AsciiLetter;
            } else if u >= 0xFF61 && u <= 0xFF9F {
                score += HALF_WIDTH_KATAKANA_PENALTY;
                self.prev = LatinCj::Other;
            } else if (u >= 0x3041 && u <= 0x3093) || (u >= 0x30A1 && u <= 0x30F6) {
                if u == 0x3090 || u == 0x3091 || u == 0x30F0 || u == 0x30F1 {
                    score += EUC_JP_SCORE_PER_NEAR_OBSOLETE_KANA;
                } else {
                    score += EUC_JP_SCORE_PER_KANA;
                }
                if self.prev == LatinCj::AsciiLetter {
                    score += CJK_LATIN_ADJACENCY_PENALTY;
                }
                self.prev = LatinCj::Cj;
            } else if (u >= 0x3400 && u < 0xA000) || (u >= 0xF900 && u < 0xFB00) {
                if self.prev_prev_byte == 0x8F {
                    score += EUC_JP_SCORE_PER_OTHER_KANJI;
                } else if self.prev_byte < 0xD0 {
                    score += EUC_JP_SCORE_PER_LEVEL_1_KANJI;
                    score += cjk_extra_score(u, self.frequent);
                } else {
                    score += EUC_JP_SCORE_PER_LEVEL_2_KANJI;
                }
                if self.prev == LatinCj::AsciiLetter {
                    score += CJK_LATIN_ADJACENCY_PENALTY;
                }
                self.prev = LatinCj::Cj;
            } else {
                if u == 0x3000 || u == 0x3001 || u == 0x3002 || u == 0xFF08 || u == 0xFF09 {
                    score += CJ_PUNCTUATION;
                } else if u > 0x7F {
                    score += CJK_OTHER;
                }
                self.prev = LatinCj::Other;
            }
        }
        self.prev_prev_byte = self.prev_byte;
        self.prev_byte = b;
        Some(score)
    }

    /// Shows `buffer` to the candidate, byte by byte through its decoder, and
    /// closes the decoder if `last` is set. Returns the score the buffer
    /// contributes, or `None` if a byte or the end was rejected: the fold of
    /// [`euc_jp_step`] over the bytes with what the decoder reports of each.
    pub fn feed(&mut self, buffer: &[u8], last: bool) -> (r: Option<i64>)
        requires
            !old(self).finished(),
            buffer@.len() <= STREAM_LIMIT,
        ensures
            final(self).frequent() == old(self).frequent(),
            (final(self)@, as_int(r)) == decoded(
                euc_jp_stepper(old(self).frequent()),
                old(self)@,
                old(self).decoder(),
                buffer@,
                last,
            ),
            r is Some ==> final(self).decoder() == decoder_end(
                old(self).decoder(),
                buffer@,
                last,
            ),
            !last ==> !final(self).finished(),
            r is Some ==> -STEP_LIMIT * buffer@.len() <= r->0 <= STEP_LIMIT * buffer@.len(),
    {
        let ghost frequent = self.frequent();
        let ghost step = euc_jp_stepper(frequent);
        let ghost start = self@;
        let ghost first = self.decoder();
        let ghost bytes = buffer@;
        let mut score: i64 = 0;
        let mut i: usize = 0;
        while i < buffer.len()
            invariant
                0 <= i <= buffer.len(),
                bytes == buffer@,
                bytes.len() <= STREAM_LIMIT,
                start == old(self)@,
                first == old(self).decoder(),
                frequent == old(self).frequent(),
                self.frequent() == frequent,
                !self.finished(),
                step == euc_jp_stepper(frequent),
                self.decoder() == decoder_after(first, bytes.take(i as int)),
                run(step, start, reports(first, bytes.take(i as int))) == (
                    self@,
                    Some(score as int),
                ),
                -0x1_0000 * i <= score <= 0x1_0000 * i,
            decreases buffer.len() - i,
        {
            let b = buffer[i];
            let d = decode_to_utf16(&mut self.decoder, slice_subrange(buffer, i, i + 1), false);
            proof {
                let seen = bytes.take(i as int);
                let unit = Unit { byte: b, decoded: d };
                assert(bytes.subrange(i as int, i + 1) =~= seq![b]);
                assert(bytes.take(i + 1).drop_last() =~= seen);
                assert(bytes.take(i + 1).last() == b);
                lemma_run_push(step, start, reports(first, seen), unit);
                assert(step(self@, unit) == euc_jp_step(frequent, self@, unit));
            }
            match self.score_unit(b, d) {
                Some(x) => {
                    score += x;
                },
                None => {
                    proof {
                        lemma_rejected_early(step, start, first, bytes, i + 1, last);
                    }
                    return None;
                },
            }
            i += 1;
        }
        proof {
            assert(bytes.take(bytes.len() as int) =~= bytes);
            assert(bytes.subrange(0, 0) =~= Seq::<u8>::empty());
        }
        if last {
            let d = decode_to_utf16(&mut self.decoder, slice_subrange(buffer, 0, 0), true);
            match d.status {
                DecodeStatus::InputEmpty => {},
                _ => {
                    return None;
                },
            }
        }
        Some(score)
    }
}

} // verus!
