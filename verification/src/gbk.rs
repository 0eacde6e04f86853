//! The candidate for GBK, with the extensions of GB18030.

use crate::cjk::{
    LatinCj, Unit, after_cj, after_letter, cjk_extra_score, decoded, decoder_after, decoder_end,
    extra_score, is_ascii_letter, is_ideograph, is_private_use, lemma_rejected_early, other_score,
    reports, CJK_BASE_SCORE, CJK_LATIN_ADJACENCY_PENALTY, CJK_OTHER, CJK_SECONDARY_BASE_SCORE,
    CJ_PUNCTUATION,
};
use crate::encoding::MultiByte;
use crate::outside::{decode_to_utf16, decoder_finished, new_decoder, DecodeStatus, Decoded};
use crate::scan::{as_int, lemma_run_push, run, Step, STEP_LIMIT, STREAM_LIMIT};
use vstd::prelude::*;
use vstd::slice::slice_subrange;

verus! {

/// Score of an ideograph of the first level of GB 2312.
pub const GBK_SCORE_PER_LEVEL_1: i64 = CJK_BASE_SCORE;

/// Score of an ideograph of the second level of GB 2312.
pub const GBK_SCORE_PER_LEVEL_2: i64 = CJK_SECONDARY_BASE_SCORE;

/// Score of an ideograph whose bytes lie outside the EUC range: a quarter
/// of the secondary base score.
pub const GBK_SCORE_PER_NON_EUC: i64 = 5;

/// Penalty for a character of the private use area.
pub const GBK_PUA_PENALTY: i64 = -(CJK_BASE_SCORE * 10);

/// What a GBK candidate remembers between bytes.
pub struct GbkState {
    /// The previous byte of the stream.
    pub prev_byte: u8,
    pub prev: LatinCj,
}

/// The private-use code points that GB18030 maps ideographs to.
pub open spec fn is_required_private_use(u: u16) -> bool {
    (0xE78D <= u <= 0xE796) || (0xE816 <= u <= 0xE818) || u == 0xE81E || u == 0xE826 || u
        == 0xE82B || u == 0xE82C || u == 0xE831 || u == 0xE832 || u == 0xE83B || u == 0xE843 || u
        == 0xE854 || u == 0xE855 || u == 0xE864
}

/// The score of a unified ideograph from the band its two bytes lie in.
pub open spec fn gbk_band_score(frequent: Seq<u16>, lead: u8, trail: u8, u: u16) -> int {
    if 0xA1 <= trail <= 0xFE && 0xA1 <= lead <= 0xD7 {
        GBK_SCORE_PER_LEVEL_1 + extra_score(u, frequent)
    } else if 0xA1 <= trail <= 0xFE && 0xD8 <= lead <= 0xFE {
        GBK_SCORE_PER_LEVEL_2 as int
    } else {
        GBK_SCORE_PER_NON_EUC as int
    }
}

/// The class and the score of what the decoder wrote, if it wrote anything.
pub open spec fn gbk_written(frequent: Seq<u16>, s: GbkState, b: u8, d: Decoded) -> (LatinCj, int) {
    let u = d.first;
    if d.written == 1 {
        if is_ascii_letter(u) {
            (LatinCj::AsciiLetter, after_cj(s.prev))
        } else if 0x4E00 <= u <= 0x9FA5 {
            (LatinCj::Cj, gbk_band_score(frequent, s.prev_byte, b, u) + after_letter(s.prev))
        } else if is_ideograph(u) {
            (LatinCj::Cj, GBK_SCORE_PER_NON_EUC + after_letter(s.prev))
        } else if is_private_use(u) {
            if is_required_private_use(u) {
                (LatinCj::Cj, GBK_SCORE_PER_NON_EUC + after_letter(s.prev))
            } else {
                (LatinCj::Other, GBK_PUA_PENALTY as int)
            }
        } else {
            (LatinCj::Other, other_score(u, true))
        }
    } else if d.written == 2 {
        if 0xDB80 <= u <= 0xDBFF {
            (LatinCj::Other, GBK_PUA_PENALTY as int)
        } else if 0xD480 <= u < 0xD880 {
            (LatinCj::Cj, GBK_SCORE_PER_NON_EUC + after_letter(s.prev))
        } else {
            (LatinCj::Other, CJK_OTHER as int)
        }
    } else {
        (s.prev, 0)
    }
}

/// One byte shown to a GBK candidate, with what the decoder made of it. A
/// byte on which the decoder reports anything but the end of its input is
/// rejected.
pub open spec fn gbk_step(frequent: Seq<u16>, s: GbkState, unit: Unit) -> Option<(GbkState, int)> {
    let written = gbk_written(frequent, s, unit.byte, unit.decoded);
    if unit.decoded.status != DecodeStatus::InputEmpty {
        None
    } else {
        Some((GbkState { prev_byte: unit.byte, prev: written.0 }, written.1))
    }
}

/// The step of a GBK candidate over the table `frequent` of frequent
/// simplified ideographs.
pub open spec fn gbk_stepper(frequent: Seq<u16>) -> Step<GbkState, Unit> {
    |s: GbkState, unit: Unit| gbk_step(frequent, s, unit)
}

/// A scoring state machine for GBK.
pub struct GbkCandidate {
    decoder: encoding_rs::Decoder,
    prev_byte: u8,
    prev: LatinCj,
    frequent: &'static [u16; 128],
}

impl View for GbkCandidate {
    type V = GbkState;

    closed spec fn view(&self) -> GbkState {
        GbkState { prev_byte: self.prev_byte, prev: self.prev }
    }
}

impl GbkCandidate {
    /// The table of frequent simplified ideographs.
    pub closed spec fn frequent(&self) -> Seq<u16> {
        self.frequent@
    }

    /// The state of the decoder.
    pub closed spec fn decoder(&self) -> encoding_rs::Decoder {
        self.decoder
    }

    /// Whether the decoder has been closed at the end of a stream.
    pub closed spec fn finished(&self) -> bool {
        decoder_finished(self.decoder)
    }

    /// The state before any byte.
    pub open spec fn initial() -> GbkState {
        GbkState { prev_byte: 0, prev: LatinCj::Other }
    }

    /// A candidate at the start of a stream.
    pub fn new(frequent: &'static [u16; 128]) -> (r: Self)
        ensures
            r@ == Self::initial(),
            r.frequent() == frequent@,
            !r.finished(),
    {
        GbkCandidate {
            decoder: new_decoder(MultiByte::Gbk),
            prev_byte: 0,
            prev: LatinCj::Other,
            frequent,
        }
    }

    /// Scores the byte `b`, for which the decoder reported `d`. Returns what
    /// the byte contributes, or `None`, leaving the candidate as it was, if
    /// the decoder did not accept the byte.
    pub fn score_unit(&mut self, b: u8, d: Decoded) -> (r: Option<i64>)
        ensures
            final(self).frequent() == old(self).frequent(),
            final(self).decoder() == old(self).decoder(),
            final(self).finished() == old(self).finished(),
            match gbk_step(old(self).frequent(), old(self)@, Unit { byte: b, decoded: d }) {
                Some(next) => final(self)@ == next.0 && as_int(r) == Some(next.1),
                None => final(self)@ == old(self)@ && r is None,
            },
            r is Some ==> -STEP_LIMIT <= r->0 <= STEP_LIMIT,
    {
        match d.status {
            DecodeStatus::InputEmpty => {},
            _ => {
                return None;
            },
        }
        let mut score: i64 = 0;
        let u = d.first;
        if d.written == 1 {
            if (u >= 0x61 && u <= 0x7A) || (u >= 0x41 && u <= 0x5A) {
                if self.prev == LatinCj::Cj {
                    score += CJK_LATIN_ADJACENCY_PENALTY;
                }
                self.prev = LatinCj::AsciiLetter;
            } else if u >= 0x4E00 && u <= 0x9FA5 {
                if b >= 0xA1 && b <= 0xFE && self.prev_byte >= 0xA1 && self.prev_byte <= 0xD7 {
                    score += GBK_SCORE_PER_LEVEL_1;
                    score += cjk_extra_score(u, self.frequent);
                } else if b >= 0xA1 && b <= 0xFE && self.prev_byte >= 0xD8 && self.prev_byte
                    <= 0xFE {
                    score += GBK_SCORE_PER_LEVEL_2;
                } else {
                    score += GBK_SCORE_PER_NON_EUC;
                }
                if self.prev == LatinCj::AsciiLetter {
                    score += CJK_LATIN_ADJACENCY_PENALTY;
                }
                self.prev = LatinCj::Cj;
            } else if (u >= 0x3400 && u < 0xA000) || (u >= 0xF900 && u < 0xFB00) {
                score += GBK_SCORE_PER_NON_EUC;
                if self.prev == LatinCj::AsciiLetter {
                    score += CJK_LATIN_ADJACENCY_PENALTY;
                }
                self.prev = LatinCj::Cj;
            } else if u >= 0xE000 && u < 0xF900 {
                if (u >= 0xE78D && u <= 0xE796) || (u >= 0xE816 && u <= 0xE818) || u == 0xE81E
                    || u == 0xE826 || u == 0xE82B || u == 0xE82C || u == 0xE831 || u == 0xE832
                    || u == 0xE83B || u == 0xE843 || u == 0xE854 || u == 0xE855 || u == 0xE864 {
                    score += GBK_SCORE_PER_NON_EUC;
                    if self.prev == LatinCj::AsciiLetter {
                        score += CJK_LATIN_ADJACENCY_PENALTY;
                    }
                    self.prev = LatinCj::Cj;
                } else {
                    score += GBK_PUA_PENALTY;
                    self.prev = LatinCj::Other;
                }
            } else {
                if u == 0x3000 || u == 0x3001 || u == 0x3002 || u == 0xFF08 || u == 0xFF09 || u
                    == 0xFF01 || u == 0xFF0C || u == 0xFF1B || u == 0xFF1F {
                    score += CJ_PUNCTUATION;
                } else if u > 0x7F {
                    score += CJK_OTHER;
                }
                self.prev = LatinCj::Other;
            }
        } else if d.written == 2 {
            if u >= 0xDB80 && u <= 0xDBFF {
                score += GBK_PUA_PENALTY;
                self.prev = LatinCj::Other;
            } else if u >= 0xD480 && u < 0xD880 {
                score += GBK_SCORE_PER_NON_EUC;
                if self.prev == LatinCj::AsciiLetter {
                    score += CJK_LATIN_ADJACENCY_PENALTY;
                }
                self.prev = LatinCj::Cj;
            } else {
                score += CJK_OTHER;
                self.prev = LatinCj::Other;
            }
        }
        self.prev_byte = b;
        Some(score)
    }

    /// Shows `buffer` to the candidate, byte by byte through its decoder, and
    /// closes the decoder if `last` is set. Returns the score the buffer
    /// contributes, or `None` if a byte or the end was rejected: the fold of
    /// [`gbk_step`] over the bytes with what the decoder reports of each.
    pub fn feed(&mut self, buffer: &[u8], last: bool) -> (r: Option<i64>)
        requires
            !old(self).finished(),
            buffer@.len() <= STREAM_LIMIT,
        ensures
            final(self).frequent() == old(self).frequent(),
            (final(self)@, as_int(r)) == decoded(
                gbk_stepper(old(self).frequent()),
                old(self)@,
                old(self).decoder(),
                buffer@,
                last,
            ),
            r is Some ==> final(self).decoder() == decoder_end(
                old(self).decoder(),
                buffer@,
                last,
            ),
            !last ==> !final(self).finished(),
            r is Some ==> -STEP_LIMIT * buffer@.len() <= r->0 <= STEP_LIMIT * buffer@.len(),
    {
        let ghost frequent = self.frequent();
        let ghost step = gbk_stepper(frequent);
        let ghost start = self@;
        let ghost first = self.decoder();
        let ghost bytes = buffer@;
        let mut score: i64 = 0;
        let mut i: usize = 0;
        while i < buffer.len()
            invariant
                0 <= i <= buffer.len(),
                bytes == buffer@,
                bytes.len() <= STREAM_LIMIT,
                start == old(self)@,
                first == old(self).decoder(),
                frequent == old(self).frequent(),
                self.frequent() == frequent,
                !self.finished(),
                step == gbk_stepper(frequent),
                self.decoder() == decoder_after(first, bytes.take(i as int)),
                run(step, start, reports(first, bytes.take(i as int))) == (
                    self@,
                    Some(score as int),
                ),
                -0x1_0000 * i <= score <= 0x1_0000 * i,
            decreases buffer.len() - i,
        {
            let b = buffer[i];
            let d = decode_to_utf16(&mut self.decoder, slice_subrange(buffer, i, i + 1), false);
            proof {
                let seen = bytes.take(i as int);
                let unit = Unit { byte: b, decoded: d };
                assert(bytes.subrange(i as int, i + 1) =~= seq![b]);
                assert(bytes.take(i + 1).drop_last() =~= seen);
                assert(bytes.take(i + 1).last() == b);
                lemma_run_push(step, start, reports(first, seen), unit);
                assert(step(self@, unit) == gbk_step(frequent, self@, unit));
            }
            match self.score_unit(b, d) {
                Some(x) => {
                    score += x;
                },
                None => {
                    proof {
                        lemma_rejected_early(step, start, first, bytes, i + 1, last);
                    }
                    return None;
                },
            }
            i += 1;
        }
        proof {
            assert(bytes.take(bytes.len() as int) =~= bytes);
            assert(bytes.subrange(0, 0) =~= Seq::<u8>::empty());
        }
        if last {
            let d = decode_to_utf16(&mut self.decoder, slice_subrange(buffer, 0, 0), true);
            match d.status {
                DecodeStatus::InputEmpty => {},
                _ => {
                    return None;
                },
            }
        }
        Some(score)
    }
}

} // verus!
