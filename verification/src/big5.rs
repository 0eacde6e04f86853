//! The candidate for Big5.

use crate::cjk::{
    LatinCj, Unit, after_cj, after_letter, decoded, decoder_after, decoder_end, is_ascii_letter,
    is_ideograph, lemma_rejected_early, other_score, reports, CJK_BASE_SCORE,
    CJK_LATIN_ADJACENCY_PENALTY, CJK_OTHER, CJK_SECONDARY_BASE_SCORE, CJ_PUNCTUATION,
};
use crate::encoding::MultiByte;
use crate::outside::{decode_to_utf16, decoder_finished, new_decoder, DecodeStatus, Decoded};
use crate::scan::{as_int, lemma_run_push, run, Step, STEP_LIMIT, STREAM_LIMIT};
use vstd::prelude::*;
use vstd::slice::slice_subrange;

verus! {

/// Score of an ideograph of the first level of Big5.
pub const BIG5_SCORE_PER_LEVEL_1_HANZI: i64 = CJK_BASE_SCORE;

/// Score of any other ideograph.
pub const BIG5_SCORE_PER_OTHER_HANZI: i64 = CJK_SECONDARY_BASE_SCORE;

/// What a Big5 candidate remembers between bytes.
pub struct Big5State {
    pub prev: LatinCj,
    /// The previous byte of the stream.
    pub prev_byte: u8,
}

/// The class and the score of what the decoder wrote, if it wrote anything.
/// Two code units are either a Latin letter with a combining mark, whose
/// first unit is `U+00CA` or `U+00EA`, or an ideograph beyond the basic
/// plane.
pub open spec fn big5_written(s: Big5State, d: Decoded) -> (LatinCj, int) {
    let u = d.first;
    if d.written == 1 {
        if is_ascii_letter(u) {
            (LatinCj::AsciiLetter, after_cj(s.prev))
        } else if is_ideograph(u) {
            (
                LatinCj::Cj,
                if 0xA4 <= s.prev_byte <= 0xC6 {
                    BIG5_SCORE_PER_LEVEL_1_HANZI as int
                } else {
                    BIG5_SCORE_PER_OTHER_HANZI as int
                } + after_letter(s.prev),
            )
        } else {
            (LatinCj::Other, other_score(u, true))
        }
    } else if d.written == 2 {
        if u == 0xCA || u == 0xEA {
            (LatinCj::Other, CJK_OTHER as int)
        } else {
            (LatinCj::Cj, BIG5_SCORE_PER_OTHER_HANZI + after_letter(s.prev))
        }
    } else {
        (s.prev, 0)
    }
}

/// One byte shown to a Big5 candidate, with what the decoder made of it. A
/// byte on which the decoder reports anything but the end of its input is
/// rejected.
pub open spec fn big5_step(s: Big5State, unit: Unit) -> Option<(Big5State, int)> {
    let written = big5_written(s, unit.decoded);
    if unit.decoded.status != DecodeStatus::InputEmpty {
        None
    } else {
        Some((Big5State { prev: written.0, prev_byte: unit.byte }, written.1))
    }
}

/// The step of a Big5 candidate.
pub open spec fn big5_stepper() -> Step<Big5State, Unit> {
    |s: Big5State, unit: Unit| big5_step(s, unit)
}

/// A scoring state machine for Big5.
pub struct Big5Candidate {
    decoder: encoding_rs::Decoder,
    prev: LatinCj,
    prev_byte: u8,
}

impl View for Big5Candidate {
    type V = Big5State;

    closed spec fn view(&self) -> Big5State {
        Big5State { prev: self.prev, prev_byte: self.prev_byte }
    }
}

impl Big5Candidate {
    /// The state of the decoder.
    pub closed spec fn decoder(&self) -> encoding_rs::Decoder {
        self.decoder
    }

    /// Whether the decoder has been closed at the end of a stream.
    pub closed spec fn finished(&self) -> bool {
        decoder_finished(self.decoder)
    }

    /// The state before any byte.
    pub open spec fn initial() -> Big5State {
        Big5State { prev: LatinCj::Other, prev_byte: 0 }
    }

    /// A candidate at the start of a stream.
    pub fn new() -> (r: Self)
        ensures
            r@ == Self::initial(),
            !r.finished(),
    {
        Big5Candidate { decoder: new_decoder(MultiByte::Big5), prev: LatinCj::Other, prev_byte: 0 }
    }

    /// Scores the byte `b`, for which the decoder reported `d`. Returns what
    /// the byte contributes, or `None`, leaving the candidate as it was, if
    /// the decoder did not accept the byte.
    pub fn score_unit(&mut self, b: u8, d: Decoded) -> (r: Option<i64>)
        ensures
            final(self).decoder() == old(self).decoder(),
            final(self).finished() == old(self).finished(),
            match big5_step(old(self)@, Unit { byte: b, decoded: d }) {
                Some(next) => final(self)@ == next.0 && as_int(r) == Some(next.1),
                None => final(self)@ == old(self)@ && r is None,
            },
            r is Some ==> -STEP_LIMIT <= r->0 <= STEP_LIMIT,
    {
        match d.status {
            DecodeStatus::InputEmpty => {},
            _ => {
                return None;
            },
        }
        let mut score: i64 = 0;
        let u = d.first;
        if d.written == 1 {
            if (u >= 0x61 && u <= 0x7A) || (u >= 0x41 && u <= 0x5A) {
                if self.prev == LatinCj::Cj {
                    score += CJK_LATIN_ADJACENCY_PENALTY;
                }
                self.prev = LatinCj::AsciiLetter;
            } else if (u >= 0x3400 && u < 0xA000) || (u >= 0xF900 && u < 0xFB00) {
                if self.prev_byte >= 0xA4 && self.prev_byte <= 0xC6 {
                    score += BIG5_SCORE_PER_LEVEL_1_HANZI;
                } else {
                    score += BIG5_SCORE_PER_OTHER_HANZI;
                }
                if self.prev == LatinCj::AsciiLetter {
                    score += CJK_LATIN_ADJACENCY_PENALTY;
                }
                self.prev = LatinCj::Cj;
            } else {
                if u == 0x3000 || u == 0x3001 || u == 0x3002 || u == 0xFF08 || u == 0xFF09 || u
                    == 0xFF01 || u == 0xFF0C || u == 0xFF1B || u == 0xFF1F {
                    score += CJ_PUNCTUATION;
                } else if u > 0x7F {
                    score += CJK_OTHER;
                }
                self.prev = LatinCj::Other;
            }
        } else if d.written == 2 {
            if u == 0xCA || u == 0xEA {
                score += CJK_OTHER;
                self.prev = LatinCj::Other;
            } else {
                score += BIG5_SCORE_PER_OTHER_HANZI;
                if self.prev == LatinCj::AsciiLetter {
                    score += CJK_LATIN_ADJACENCY_PENALTY;
                }
                self.prev = LatinCj::Cj;
            }
        }
        self.prev_byte = b;
        Some(score)
    }

    /// Shows `buffer` to the candidate, byte by byte through its decoder, and
    /// closes the decoder if `last` is set. Returns the score the buffer
    /// contributes, or `None` if a byte or the end was rejected: the fold of
    /// [`big5_step`] over the bytes with what the decoder reports of each.
    pub fn feed(&mut self, buffer: &[u8], last: bool) -> (r: Option<i64>)
        requires
            !old(self).finished(),
            buffer@.len() <= STREAM_LIMIT,
        ensures
            (final(self)@, as_int(r)) == decoded(
                big5_stepper(),
                old(self)@,
                old(self).decoder(),
                buffer@,
                last,
            ),
            r is Some ==> final(self).decoder() == decoder_end(
                old(self).decoder(),
                buffer@,
                last,
            ),
            !last ==> !final(self).finished(),
            r is Some ==> -STEP_LIMIT * buffer@.len() <= r->0 <= STEP_LIMIT * buffer@.len(),
    {
        let ghost step = big5_stepper();
        let ghost start = self@;
        let ghost first = self.decoder();
        let ghost bytes = buffer@;
        let mut score: i64 = 0;
        let mut i: usize = 0;
        while i < buffer.len()
            invariant
                0 <= i <= buffer.len(),
                bytes == buffer@,
                bytes.len() <= STREAM_LIMIT,
                start == old(self)@,
                first == old(self).decoder(),
                !self.finished(),
                step == big5_stepper(),
                self.decoder() == decoder_after(first, bytes.take(i as int)),
                run(step, start, reports(first, bytes.take(i as int))) == (
                    self@,
                    Some(score as int),
                ),
                -0x1_0000 * i <= score <= 0x1_0000 * i,
            decreases buffer.len() - i,
        {
            let b = buffer[i];
            let d = decode_to_utf16(&mut self.decoder, slice_subrange(buffer, i, i + 1), false);
            proof {
                let seen = bytes.take(i as int);
                let unit = Unit { byte: b, decoded: d };
                assert(bytes.subrange(i as int, i + 1) =~= seq![b]);
                assert(bytes.take(i + 1).drop_last() =~= seen);
                assert(bytes.take(i + 1).last() == b);
                lemma_run_push(step, start, reports(first, seen), unit);
                assert(step(self@, unit) == big5_step(self@, unit));
            }
            match self.score_unit(b, d) {
                Some(x) => {
                    score += x;
                },
                None => {
                    proof {
                        lemma_rejected_early(step, start, first, bytes, i + 1, last);
                    }
                    return None;
                },
            }
            i += 1;
        }
        proof {
            assert(bytes.take(bytes.len() as int) =~= bytes);
            assert(bytes.subrange(0, 0) =~= Seq::<u8>::empty());
        }
        if last {
            let d = decode_to_utf16(&mut self.decoder, slice_subrange(buffer, 0, 0), true);
            match d.status {
                DecodeStatus::InputEmpty => {},
                _ => {
                    return None;
                },
            }
        }
        Some(score)
    }
}

} // verus!
