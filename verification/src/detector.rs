//! The detector: twenty-six candidates that are shown the same bytes, and
//! the arbitration that names one encoding from where they stand.
//!
//! A stream usually starts with a stretch of plain ASCII, which says nothing
//! about its encoding. The detector holds that stretch back: candidates see
//! nothing before the first byte that is not ASCII, or the first escape, and
//! then only the one byte before it.

use crate::candidate::{
    lemma_shown_replay, magnitude, shown, Candidate, CandidateState, InnerState, Shown,
};
use crate::arabic_french::ArabicFrenchCandidate;
use crate::big5::Big5Candidate;
use crate::caseless::CaselessCandidate;
use crate::data::{table_encoding, DetectorData};
use crate::euc_jp::EucJpCandidate;
use crate::euc_kr::EucKrCandidate;
use crate::gbk::GbkCandidate;
use crate::hebrew::hebrew_initial;
use crate::latin::LatinCandidate;
use crate::non_latin::NonLatinCasedCandidate;
use crate::shift_jis::ShiftJisCandidate;
use crate::encoding::EncodingId;
use crate::scan::{STEP_LIMIT, STREAM_LIMIT};
use vstd::prelude::*;
use vstd::slice::slice_subrange;

verus! {

/// Number of candidates.
pub const CANDIDATE_COUNT: usize = 26;

/// Place of the UTF-8 candidate.
pub const UTF_8_INDEX: usize = 0;

/// Place of the candidate for Hebrew in display order.
pub const VISUAL_INDEX: usize = 1;

/// Place of the first candidate that competes by score alone.
pub const FIRST_NORMAL: usize = 2;

/// Place of the first single-byte candidate after the decoding ones.
pub const FIRST_SINGLE_BYTE: usize = 7;

/// Place of the candidate for Hebrew in reading order.
pub const LOGICAL_INDEX: usize = 15;

/// The escape byte, which announces ISO-2022-JP.
pub const ESCAPE: u8 = 0x1B;

/// The encoding of the candidate at place `i`.
pub open spec fn encoding_at(i: int) -> EncodingId {
    if i == 0 {
        EncodingId::Utf8
    } else if i == 1 {
        EncodingId::Iso8859_8
    } else if i == 2 {
        EncodingId::Gbk
    } else if i == 3 {
        EncodingId::EucJp
    } else if i == 4 {
        EncodingId::EucKr
    } else if i == 5 {
        EncodingId::ShiftJis
    } else if i == 6 {
        EncodingId::Big5
    } else {
        table_encoding(i - 6)
    }
}

/// How far into a stream the detector has come.
pub struct Progress {
    /// Number of bytes outside ASCII among those shown to the candidates.
    pub non_ascii_seen: nat,
    /// The last byte of the ASCII held back so far.
    pub last_before_non_ascii: Option<u8>,
    /// Whether an escape came before any byte outside ASCII.
    pub esc_seen: bool,
}

/// The mathematical content of a detector.
pub struct DetectorState {
    pub candidates: Seq<CandidateState>,
    pub progress: Progress,
}

/// What a buffer does to the detector: where it stands afterwards, and what
/// it shows to every candidate, if it shows anything.
pub struct Routed {
    pub progress: Progress,
    pub shown: Option<Shown>,
}

/// Number of bytes of `bytes` that are outside ASCII.
pub open spec fn non_ascii_count(bytes: Seq<u8>) -> nat
    decreases bytes.len(),
{
    if bytes.len() == 0 {
        0
    } else {
        non_ascii_count(bytes.drop_last()) + if bytes.last() >= 0x80 {
            1nat
        } else {
            0nat
        }
    }
}

/// Whether the byte ends the stretch that is held back.
pub open spec fn is_hit(b: u8) -> bool {
    b >= 0x80 || b == ESCAPE
}

/// Index of the first byte at or after `from` that is outside ASCII or an
/// escape, or the length of `bytes` when there is none.
pub open spec fn first_hit_from(bytes: Seq<u8>, from: int) -> int
    decreases bytes.len() - from,
{
    if from < 0 || from >= bytes.len() {
        bytes.len() as int
    } else if is_hit(bytes[from]) {
        from
    } else {
        first_hit_from(bytes, from + 1)
    }
}

/// Index of the first byte that is outside ASCII or an escape, or the length
/// of `bytes` when there is none.
pub open spec fn first_hit(bytes: Seq<u8>) -> int {
    first_hit_from(bytes, 0)
}

/// The detector holds back input: it has shown no byte outside ASCII and no
/// escape.
pub open spec fn holding_back(p: Progress) -> bool {
    p.non_ascii_seen == 0 && !p.esc_seen
}

/// The byte that is replayed before a buffer that starts with the hit: the
/// last one held back, if any.
pub open spec fn replay(p: Progress) -> Seq<u8> {
    match p.last_before_non_ascii {
        Some(b) => seq![b],
        None => Seq::empty(),
    }
}

/// What `buffer` does to a detector that stands at `p`; `last` says whether
/// the stream ends with it.
///
/// While the detector holds back: a buffer of plain ASCII is held back too,
/// but for its last byte, which is remembered; an empty buffer changes
/// nothing. Any other buffer is shown from the byte before the hit; if the
/// hit is its first byte, the remembered byte is shown before it, by
/// itself. After that every buffer is shown
/// whole. Whatever is shown is followed by the end of the stream if `last`
/// is set.
pub open spec fn route(p: Progress, buffer: Seq<u8>, last: bool) -> Routed {
    let start = first_hit(buffer);
    if !holding_back(p) {
        Routed {
            progress: Progress { non_ascii_seen: p.non_ascii_seen + non_ascii_count(buffer), ..p },
            shown: Some(Shown { bytes: buffer, last, replayed: false }),
        }
    } else if start == buffer.len() {
        Routed {
            progress: Progress {
                last_before_non_ascii: if buffer.len() > 0 {
                    Some(buffer.last())
                } else {
                    p.last_before_non_ascii
                },
                ..p
            },
            shown: None,
        }
    } else if start == 0 {
        Routed {
            progress: Progress {
                non_ascii_seen: non_ascii_count(replay(p)) + non_ascii_count(buffer),
                last_before_non_ascii: p.last_before_non_ascii,
                esc_seen: buffer[0] == ESCAPE,
            },
            shown: Some(
                Shown {
                    bytes: replay(p) + buffer,
                    last,
                    replayed: p.last_before_non_ascii is Some,
                },
            ),
        }
    } else {
        Routed {
            progress: Progress {
                non_ascii_seen: non_ascii_count(buffer.subrange(start - 1, buffer.len() as int)),
                last_before_non_ascii: p.last_before_non_ascii,
                esc_seen: buffer[start] == ESCAPE,
            },
            shown: Some(
                Shown {
                    bytes: buffer.subrange(start - 1, buffer.len() as int),
                    last,
                    replayed: false,
                },
            ),
        }
    }
}

/// What `first_hit_from` returns is the first hit at or after `from`.
pub proof fn lemma_first_hit(bytes: Seq<u8>, from: int)
    requires
        0 <= from <= bytes.len(),
    ensures
        from <= first_hit_from(bytes, from) <= bytes.len(),
        first_hit_from(bytes, from) < bytes.len() ==> is_hit(bytes[first_hit_from(bytes, from)]),
        forall|j: int| from <= j < first_hit_from(bytes, from) ==> !is_hit(#[trigger] bytes[j]),
    decreases bytes.len() - from,
{
    if from < bytes.len() && !is_hit(bytes[from]) {
        lemma_first_hit(bytes, from + 1);
    }
}

/// An index before which there is no hit, and which is a hit or the end, is
/// the first hit.
pub proof fn lemma_first_hit_is(bytes: Seq<u8>, at: int)
    requires
        0 <= at <= bytes.len(),
        forall|j: int| 0 <= j < at ==> !is_hit(#[trigger] bytes[j]),
        at < bytes.len() ==> is_hit(bytes[at]),
    ensures
        first_hit(bytes) == at,
{
    lemma_first_hit(bytes, 0);
}

/// The count over a concatenation is the sum of the counts.
pub proof fn lemma_non_ascii_count_concat(a: Seq<u8>, b: Seq<u8>)
    ensures
        non_ascii_count(a + b) == non_ascii_count(a) + non_ascii_count(b),
    decreases b.len(),
{
    if b.len() == 0 {
        assert(a + b =~= a);
    } else {
        assert((a + b).drop_last() =~= a + b.drop_last());
        assert((a + b).last() == b.last());
        lemma_non_ascii_count_concat(a, b.drop_last());
    }
}

/// No more bytes are outside ASCII than there are bytes.
pub proof fn lemma_non_ascii_count_bound(bytes: Seq<u8>)
    ensures
        non_ascii_count(bytes) <= bytes.len(),
        non_ascii_count(bytes) == 0 <==> forall|j: int|
            0 <= j < bytes.len() ==> #[trigger] bytes[j] < 0x80,
    decreases bytes.len(),
{
    if bytes.len() > 0 {
        lemma_non_ascii_count_bound(bytes.drop_last());
        if non_ascii_count(bytes) == 0 {
            assert forall|j: int| 0 <= j < bytes.len() implies #[trigger] bytes[j] < 0x80 by {
                if j < bytes.len() - 1 {
                    assert(bytes.drop_last()[j] == bytes[j]);
                }
            }
        }
        if forall|j: int| 0 <= j < bytes.len() ==> #[trigger] bytes[j] < 0x80 {
            let front = bytes.drop_last();
            assert forall|j: int| 0 <= j < front.len() implies #[trigger] front[j] < 0x80 by {
                assert(bytes.drop_last()[j] == bytes[j]);
            }
        }
    }
}

/// Counts the bytes of `buffer` that are outside ASCII.
pub fn count_non_ascii(buffer: &[u8]) -> (count: u64)
    ensures
        count == non_ascii_count(buffer@),
        count <= buffer@.len(),
{
    let mut count: u64 = 0;
    let mut i: usize = 0;
    while i < buffer.len()
        invariant
            0 <= i <= buffer.len(),
            count == non_ascii_count(buffer@.take(i as int)),
            count <= i,
        decreases buffer.len() - i,
    {
        proof {
            assert(buffer@.take(i + 1).drop_last() =~= buffer@.take(i as int));
        }
        if buffer[i] >= 0x80 {
            count += 1;
        }
        i += 1;
    }
    proof {
        assert(buffer@.take(buffer@.len() as int) =~= buffer@);
    }
    count
}

/// The discipline and the state of the candidate at place `i` before any
/// byte.
pub open spec fn initial_inner(i: int) -> InnerState {
    if i == 0 {
        InnerState::Utf8
    } else if i == 1 {
        InnerState::Visual(hebrew_initial())
    } else if i == 2 {
        InnerState::Gbk(GbkCandidate::initial())
    } else if i == 3 {
        InnerState::EucJp(EucJpCandidate::initial())
    } else if i == 4 {
        InnerState::EucKr(EucKrCandidate::initial())
    } else if i == 5 {
        InnerState::Shift(ShiftJisCandidate::initial())
    } else if i == 6 {
        InnerState::Big5(Big5Candidate::initial())
    } else if i == 8 || i == 16 || i == 17 || i == 20 || i == 21 || i == 25 {
        InnerState::NonLatinCased(NonLatinCasedCandidate::initial())
    } else if i == 11 {
        InnerState::ArabicFrench(ArabicFrenchCandidate::initial())
    } else if i == 14 || i == 22 {
        InnerState::Caseless(CaselessCandidate::initial())
    } else if i == 15 {
        InnerState::Logical(hebrew_initial())
    } else {
        InnerState::Latin(LatinCandidate::initial())
    }
}

/// A detector before any byte.
pub open spec fn initial_state() -> DetectorState {
    DetectorState {
        candidates: Seq::new(
            CANDIDATE_COUNT as nat,
            |i: int| CandidateState { inner: initial_inner(i), score: Some(0int) },
        ),
        progress: Progress { non_ascii_seen: 0, last_before_non_ascii: None, esc_seen: false },
    }
}

/// The leader of a race: an encoding and the score it leads with.
pub struct Pick {
    pub encoding: EncodingId,
    pub max: int,
}

/// The leader among the candidates that compete by score alone and stand
/// before place `n`. Windows-1252 leads with nothing; a candidate takes the
/// lead by a score that is strictly higher, so of equals the first stays.
pub open spec fn best_upto(candidates: Seq<CandidateState>, n: int) -> Pick
    decreases n,
{
    if n <= FIRST_NORMAL {
        Pick { encoding: EncodingId::Windows1252, max: 0 }
    } else {
        let before = best_upto(candidates, n - 1);
        match candidates[n - 1].reported_score() {
            Some(x) => if x > before.max {
                Pick { encoding: encoding_at(n - 1), max: x }
            } else {
                before
            },
            None => before,
        }
    }
}

/// Whether Hebrew in display order overrules a leader with the score `max`:
/// it has to score higher, and to have counted strictly more plausible
/// punctuation than Hebrew in reading order.
pub open spec fn visual_wins(candidates: Seq<CandidateState>, max: int) -> bool {
    match candidates[VISUAL_INDEX as int].reported_score() {
        Some(v) => v > max && candidates[VISUAL_INDEX as int].plausible_punctuation()
            > candidates[LOGICAL_INDEX as int].plausible_punctuation(),
        None => false,
    }
}

/// The encoding a detector in state `s` answers with.
pub open spec fn verdict(s: DetectorState, allow_utf8: bool) -> EncodingId {
    let best = best_upto(s.candidates, CANDIDATE_COUNT as int);
    if s.progress.non_ascii_seen == 0 && s.progress.esc_seen {
        EncodingId::Iso2022Jp
    } else if allow_utf8 && s.candidates[UTF_8_INDEX as int].score is Some
        && s.progress.non_ascii_seen > 0 {
        EncodingId::Utf8
    } else if visual_wins(s.candidates, best.max) {
        EncodingId::Iso8859_8
    } else {
        best.encoding
    }
}

/// The first place at or after `from` whose candidate stands for
/// `encoding`, or the number of candidates when there is none.
pub open spec fn first_place(encoding: EncodingId, from: int) -> int
    decreases CANDIDATE_COUNT - from,
{
    if from < 0 || from >= CANDIDATE_COUNT {
        CANDIDATE_COUNT as int
    } else if encoding_at(from) == encoding {
        from
    } else {
        first_place(encoding, from + 1)
    }
}

/// The score that the first candidate for `encoding` enters the verdict
/// with, and a score of zero for an encoding that has no candidate.
pub open spec fn score_of(s: DetectorState, encoding: EncodingId) -> Option<int> {
    let place = first_place(encoding, 0);
    if place < CANDIDATE_COUNT {
        s.candidates[place].reported_score()
    } else {
        Some(0int)
    }
}

/// The leader's score is no less than any score in the race and than zero;
/// a leader with a score above zero is the first candidate with that score,
/// and with a score of zero the leader is windows-1252.
pub proof fn lemma_best_upto(candidates: Seq<CandidateState>, n: int)
    requires
        FIRST_NORMAL <= n <= candidates.len(),
    ensures
        best_upto(candidates, n).max >= 0,
        forall|i: int|
            FIRST_NORMAL <= i < n && (#[trigger] candidates[i]).reported_score() is Some
                ==> candidates[i].reported_score()->0 <= best_upto(candidates, n).max,
        best_upto(candidates, n).max == 0 ==> best_upto(candidates, n).encoding
            == EncodingId::Windows1252,
        best_upto(candidates, n).max > 0 ==> exists|i: int|
            {
                &&& FIRST_NORMAL <= i < n
                &&& (#[trigger] candidates[i]).reported_score() == Some(
                    best_upto(candidates, n).max,
                )
                &&& best_upto(candidates, n).encoding == encoding_at(i)
                &&& forall|j: int|
                    FIRST_NORMAL <= j < i && (#[trigger] candidates[j]).reported_score() is Some
                        ==> candidates[j].reported_score()->0 < best_upto(candidates, n).max
            },
    decreases n,
{
    if n > FIRST_NORMAL {
        lemma_best_upto(candidates, n - 1);
        let before = best_upto(candidates, n - 1);
        let now = best_upto(candidates, n);
        if now != before {
            assert(candidates[n - 1].reported_score() == Some(now.max));
        } else if now.max > 0 {
            let i = choose|i: int|
                {
                    &&& FIRST_NORMAL <= i < n - 1
                    &&& (#[trigger] candidates[i]).reported_score() == Some(before.max)
                    &&& before.encoding == encoding_at(i)
                    &&& forall|j: int|
                        FIRST_NORMAL <= j < i && (#[trigger] candidates[j]).reported_score()
                            is Some ==> candidates[j].reported_score()->0 < before.max
                };
            assert(candidates[i].reported_score() == Some(now.max));
        }
    }
}

/// A detector of the encoding of one stream.
pub struct EncodingDetector {
    candidates: [Candidate; 26],
    non_ascii_seen: u64,
    last_before_non_ascii: Option<u8>,
    esc_seen: bool,
    routed: u64,
    closed: bool,
}

impl View for EncodingDetector {
    type V = DetectorState;

    closed spec fn view(&self) -> DetectorState {
        DetectorState {
            candidates: Seq::new(CANDIDATE_COUNT as nat, |i: int| self.candidates@[i]@),
            progress: Progress {
                non_ascii_seen: self.non_ascii_seen as nat,
                last_before_non_ascii: self.last_before_non_ascii,
                esc_seen: self.esc_seen,
            },
        }
    }
}

impl EncodingDetector {
    /// The candidate at place `i`.
    pub closed spec fn candidate(&self, i: int) -> Candidate {
        self.candidates@[i]
    }

    /// An upper bound of the number of bytes, ends of stream among them,
    /// that the candidates have been shown.
    pub closed spec fn routed(&self) -> nat {
        self.routed as nat
    }

    /// Whether the candidates have been shown the end of the stream.
    pub closed spec fn closed(&self) -> bool {
        self.closed
    }

    /// The view lists the states of the candidates in their places.
    pub proof fn lemma_view(&self)
        ensures
            self@.candidates.len() == CANDIDATE_COUNT,
            forall|i: int|
                0 <= i < CANDIDATE_COUNT ==> #[trigger] self@.candidates[i] == self.candidate(i)@,
    {
    }

    /// Every candidate is well formed, stands for the encoding of its place
    /// and is within the limits that `routed` sets; the candidates that the
    /// arbitration knows by place are of the disciplines it expects.
    pub open spec fn wf(&self) -> bool {
        &&& forall|i: int|
            0 <= i < CANDIDATE_COUNT ==> {
                &&& (#[trigger] self.candidate(i)).wf()
                &&& self.candidate(i).id() == encoding_at(i)
                &&& self.candidate(i)@.inner.load() <= self.routed()
                &&& magnitude(self.candidate(i)@.score) <= STEP_LIMIT * self.routed()
            }
        &&& self.candidate(UTF_8_INDEX as int)@.inner is Utf8
        &&& self.candidate(VISUAL_INDEX as int)@.inner is Visual
        &&& self.candidate(LOGICAL_INDEX as int)@.inner is Logical
        &&& self.routed() <= STREAM_LIMIT
        &&& !self.closed() ==> !self.ended()
        &&& self@.progress.non_ascii_seen <= self.routed()
        &&& match self@.progress.last_before_non_ascii {
            Some(b) => !is_hit(b),
            None => true,
        }
    }

    /// Whether the decoder of a candidate that is still in the race has been
    /// closed. That happens only when the candidates are shown the end of
    /// the stream.
    pub open spec fn ended(&self) -> bool {
        exists|i: int|
            0 <= i < CANDIDATE_COUNT && (#[trigger] self.candidate(i))@.score is Some
                && self.candidate(i).finished()
    }

    /// A detector at the start of a stream, with the tables it is to use.
    pub fn new(data: &'static DetectorData) -> (r: Self)
        requires
            data.wf(),
        ensures
            r.wf(),
            !r.closed(),
            r.routed() == 0,
            r@ == initial_state(),
            r.candidate(VISUAL_INDEX as int).table() == data.tables()[0]@,
            forall|i: int|
                FIRST_SINGLE_BYTE <= i < CANDIDATE_COUNT ==> (#[trigger] r.candidate(i)).table()
                    == data.tables()[i - 6]@,
            r.candidate(2).frequent() == data.simplified(),
            r.candidate(3).frequent() == data.kanji(),
            r.candidate(4).frequent() == data.hangul(),
            r.candidate(5).frequent() == data.kanji(),
    {
        let r = EncodingDetector {
            candidates: [
                Candidate::new_utf_8(),
                Candidate::new_visual(data.table(0)),
                Candidate::new_gbk(data.frequent_simplified()),
                Candidate::new_euc_jp(data.frequent_kanji()),
                Candidate::new_euc_kr(data.frequent_hangul()),
                Candidate::new_shift_jis(data.frequent_kanji()),
                Candidate::new_big5(),
                Candidate::new_latin(data.table(1)),
                Candidate::new_non_latin_cased(data.table(2)),
                Candidate::new_latin(data.table(3)),
                Candidate::new_latin(data.table(4)),
                Candidate::new_arabic_french(data.table(5)),
                Candidate::new_latin(data.table(6)),
                Candidate::new_latin(data.table(7)),
                Candidate::new_caseless(data.table(8)),
                Candidate::new_logical(data.table(9)),
                Candidate::new_non_latin_cased(data.table(10)),
                Candidate::new_non_latin_cased(data.table(11)),
                Candidate::new_latin(data.table(12)),
                Candidate::new_latin(data.table(13)),
                Candidate::new_non_latin_cased(data.table(14)),
                Candidate::new_non_latin_cased(data.table(15)),
                Candidate::new_caseless(data.table(16)),
                Candidate::new_latin(data.table(17)),
                Candidate::new_latin(data.table(18)),
                Candidate::new_non_latin_cased(data.table(19)),
            ],
            non_ascii_seen: 0,
            last_before_non_ascii: None,
            esc_seen: false,
            routed: 0,
            closed: false,
        };
        proof {
            assert(r@.candidates =~= initial_state().candidates);
        }
        r
    }

    /// How the detector `after` stands, once this one has been fed `buffer`,
    /// as the end of the stream if `last` is set.
    ///
    /// The detector moves on as [`route`] says. If it shows anything to its
    /// candidates, each of them stands to its former self as [`shown`]
    /// says: a single-byte candidate is exactly where its step takes it, a
    /// decoding candidate is where its decoder can have taken it, and a
    /// candidate that was disqualified stays so. If it shows nothing, the
    /// candidates are untouched. The detector is closed once its candidates
    /// have been shown the end of the stream.
    pub open spec fn fed(&self, after: EncodingDetector, buffer: Seq<u8>, last: bool) -> bool {
        &&& after@.progress == route(self@.progress, buffer, last).progress
        &&& match route(self@.progress, buffer, last).shown {
            Some(what) => forall|i: int|
                0 <= i < CANDIDATE_COUNT ==> shown(
                    self.candidate(i),
                    #[trigger] after.candidate(i),
                    what,
                ),
            None => forall|i: int|
                0 <= i < CANDIDATE_COUNT ==> #[trigger] after.candidate(i) == self.candidate(i),
        }
        &&& after.routed() <= self.routed() + buffer.len() + 3
        &&& after.closed() == (last && route(self@.progress, buffer, last).shown is Some)
    }

    /// Whether the detector can be fed a buffer of `len` bytes: it has not
    /// been closed, and the buffer would not take it beyond the length of
    /// stream that its counters are made for.
    pub open spec fn has_room(&self, len: nat) -> bool {
        !self.closed() && self.routed() + len + 3 <= STREAM_LIMIT
    }

    /// Computes [`Self::has_room`].
    pub fn can_feed(&self, len: usize) -> (r: bool)
        ensures
            r == self.has_room(len as nat),
    {
        !self.closed && len as u64 <= STREAM_LIMIT - 3 && self.routed <= STREAM_LIMIT - 3
            - len as u64
    }

    /// Feeds `buffer` to the detector if it has room for it, and returns
    /// what [`Self::feed`] returns. A detector without room is left as it
    /// is, and `None` is returned.
    pub fn try_feed(&mut self, buffer: &[u8], last: bool) -> (r: Option<bool>)
        requires
            old(self).wf(),
        ensures
            final(self).wf(),
            r is Some <==> old(self).has_room(buffer@.len()),
            match r {
                Some(seen) => {
                    &&& old(self).fed(*final(self), buffer@, last)
                    &&& seen == (final(self)@.progress.non_ascii_seen != 0)
                },
                None => *final(self) == *old(self),
            },
    {
        if self.can_feed(buffer.len()) {
            Some(self.feed(buffer, last))
        } else {
            None
        }
    }

    /// Shows `buffer` to every candidate, and the end of the stream if `last`
    /// is set.
    fn feed_impl(&mut self, buffer: &[u8], last: bool)
        requires
            old(self).wf(),
            !old(self).closed(),
            old(self).routed() + buffer@.len() + 1 <= STREAM_LIMIT,
        ensures
            final(self).wf(),
            final(self)@.progress == (Progress {
                non_ascii_seen: old(self)@.progress.non_ascii_seen + non_ascii_count(buffer@),
                ..old(self)@.progress
            }),
            forall|i: int|
                0 <= i < CANDIDATE_COUNT ==> shown(
                    old(self).candidate(i),
                    #[trigger] final(self).candidate(i),
                    Shown { bytes: buffer@, last, replayed: false },
                ),
            final(self).routed() == old(self).routed() + buffer@.len() + 1,
            final(self).closed() == last,
    {
        let ghost what = Shown { bytes: buffer@, last, replayed: false };
        let ghost budget = self.routed() + buffer@.len() + 1;
        let mut i: usize = 0;
        while i < CANDIDATE_COUNT
            invariant
                0 <= i <= CANDIDATE_COUNT,
                old(self).wf(),
                !old(self).closed(),
                what == (Shown { bytes: buffer@, last, replayed: false }),
                budget == old(self).routed() + buffer@.len() + 1,
                budget <= STREAM_LIMIT,
                self.non_ascii_seen == old(self).non_ascii_seen,
                self.last_before_non_ascii == old(self).last_before_non_ascii,
                self.esc_seen == old(self).esc_seen,
                self.routed == old(self).routed,
                self.closed == old(self).closed,
                forall|j: int|
                    0 <= j < i ==> {
                        &&& shown(old(self).candidate(j), #[trigger] self.candidate(j), what)
                        &&& self.candidate(j).wf()
                        &&& self.candidate(j)@.inner.load() <= budget
                        &&& magnitude(self.candidate(j)@.score) <= STEP_LIMIT * budget
                        &&& !last && self.candidate(j)@.score is Some ==> !self.candidate(
                            j,
                        ).finished()
                    },
                forall|j: int|
                    i <= j < CANDIDATE_COUNT ==> #[trigger] self.candidate(j) == old(
                        self,
                    ).candidate(j),
            decreases CANDIDATE_COUNT - i,
        {
            let ghost pre = *self;
            proof {
                let c = self.candidate(i as int);
                assert(c == old(self).candidate(i as int));
                assert(c.wf());
                assert(0x1_0000 * old(self).routed() + 0x1_0000 * (buffer@.len() + 1)
                    <= 0x7FFF_FFFF_FFFF_0000);
                assert(c.has_room(buffer@.len()));
            }
            self.candidates[i].feed(buffer, last);
            proof {
                assert(forall|j: int|
                    0 <= j < CANDIDATE_COUNT && j != i ==> #[trigger] self.candidate(j)
                        == pre.candidate(j));
                assert(shown(pre.candidate(i as int), self.candidate(i as int), what));
            }
            i += 1;
        }
        let ghost fed = *self;
        self.non_ascii_seen += count_non_ascii(buffer);
        self.routed = self.routed + buffer.len() as u64 + 1;
        self.closed = last;
        proof {
            assert(forall|j: int| #[trigger] self.candidate(j) == fed.candidate(j));
        }
    }

    /// Takes the next buffer of the stream; `last` says whether the stream
    /// ends with it. Returns whether any byte outside ASCII has been shown
    /// to the candidates.
    ///
    /// What becomes of the detector is what [`Self::fed`] says.
    pub fn feed(&mut self, buffer: &[u8], last: bool) -> (r: bool)
        requires
            old(self).wf(),
            old(self).has_room(buffer@.len()),
        ensures
            final(self).wf(),
            old(self).fed(*final(self), buffer@, last),
            r == (final(self)@.progress.non_ascii_seen != 0),
    {
        let ghost before = *self;
        let mut start: usize = 0;
        let ghost mut replayed: Seq<u8> = Seq::empty();
        if self.non_ascii_seen == 0 && !self.esc_seen {
            let up_to = encoding_rs::Encoding::ascii_valid_up_to(buffer);
            start = up_to;
            if let Some(escape) = memchr::memchr(ESCAPE, slice_subrange(buffer, 0, up_to)) {
                self.esc_seen = true;
                start = escape;
            }
            proof {
                assert forall|j: int| 0 <= j < start implies !is_hit(#[trigger] buffer@[j]) by {
                    assert(buffer@.subrange(0, up_to as int)[j] == buffer@[j]);
                }
                if start < up_to {
                    let front = buffer@.subrange(0, up_to as int);
                    assert(front[start as int] == buffer@[start as int]);
                }
                lemma_first_hit_is(buffer@, start as int);
            }
            proof {
                assert(forall|j: int| #[trigger] self.candidate(j) == before.candidate(j));
            }
            if start == buffer.len() {
                if buffer.len() > 0 {
                    self.last_before_non_ascii = Some(buffer[buffer.len() - 1]);
                }
                proof {
                    assert(forall|j: int| #[trigger] self.candidate(j) == before.candidate(j));
                }
                return self.non_ascii_seen != 0;
            }
            if start == 0 {
                if let Some(ascii) = self.last_before_non_ascii {
                    let src = [ascii];
                    proof {
                        replayed = src@;
                        assert(src@ =~= seq![ascii]);
                    }
                    self.feed_impl(src.as_slice(), false);
                }
            } else {
                start = start - 1;
            }
        }
        let ghost middle = *self;
        let tail = slice_subrange(buffer, start, buffer.len());
        self.feed_impl(tail, last);
        proof {
            let what = route(before@.progress, buffer@, last).shown->0;
            assert(what.bytes =~= replayed + tail@);
            assert(buffer@.subrange(0, buffer@.len() as int) =~= buffer@);
            lemma_non_ascii_count_concat(replayed, tail@);
            assert forall|i: int| 0 <= i < CANDIDATE_COUNT implies shown(
                before.candidate(i),
                #[trigger] self.candidate(i),
                what,
            ) by {
                if replayed.len() > 0 {
                    lemma_shown_replay(
                        before.candidate(i),
                        middle.candidate(i),
                        self.candidate(i),
                        replayed,
                        Shown { bytes: tail@, last, replayed: false },
                    );
                } else {
                    assert(middle.candidate(i) == before.candidate(i));
                    assert(replayed + tail@ =~= tail@);
                }
            }
        }
        self.non_ascii_seen != 0
    }

    /// Names the encoding that the stream is most plausibly in, from what
    /// has been fed so far. UTF-8 is answered only if `allow_utf8` is set.
    /// The top-level domain `tld` of the stream's origin is taken for the
    /// callers that have one; the verdict does not depend on it.
    pub fn guess(&self, tld: Option<&[u8]>, allow_utf8: bool) -> (r: EncodingId)
        requires
            self.wf(),
        ensures
            r == verdict(self@, allow_utf8),
    {
        proof {
            self.lemma_view();
        }
        if self.non_ascii_seen == 0 && self.esc_seen {
            return EncodingId::Iso2022Jp;
        }
        if allow_utf8 && self.candidates[UTF_8_INDEX].is_live() && self.non_ascii_seen > 0 {
            return EncodingId::Utf8;
        }
        let mut encoding = EncodingId::Windows1252;
        let mut max: i64 = 0;
        let mut i: usize = FIRST_NORMAL;
        while i < CANDIDATE_COUNT
            invariant
                FIRST_NORMAL <= i <= CANDIDATE_COUNT,
                self.wf(),
                self@.candidates.len() == CANDIDATE_COUNT,
                forall|j: int|
                    0 <= j < CANDIDATE_COUNT ==> #[trigger] self@.candidates[j] == self.candidate(
                        j,
                    )@,
                (Pick { encoding, max: max as int }) == best_upto(self@.candidates, i as int),
            decreases CANDIDATE_COUNT - i,
        {
            let candidate = &self.candidates[i];
            proof {
                assert(*candidate == self.candidate(i as int));
                assert(self@.candidates[i as int] == candidate@);
            }
            if let Some(score) = candidate.score() {
                if score > max {
                    max = score;
                    encoding = candidate.encoding();
                }
            }
            i += 1;
        }
        let visual = &self.candidates[VISUAL_INDEX];
        let logical = &self.candidates[LOGICAL_INDEX];
        proof {
            assert(*visual == self.candidate(VISUAL_INDEX as int));
            assert(*logical == self.candidate(LOGICAL_INDEX as int));
            assert(self@.candidates[VISUAL_INDEX as int] == visual@);
            assert(self@.candidates[LOGICAL_INDEX as int] == logical@);
        }
        if let Some(visual_score) = visual.score() {
            if visual_score > max && visual.plausible_punctuation()
                > logical.plausible_punctuation() {
                encoding = EncodingId::Iso8859_8;
            }
        }
        encoding
    }

    /// The score that the first candidate for `encoding` would enter the
    /// verdict with: `None` if it is disqualified or held back, and a score
    /// of zero if no candidate stands for `encoding`.
    pub fn find_score(&self, encoding: EncodingId) -> (r: Option<i64>)
        requires
            self.wf(),
        ensures
            crate::scan::as_int(r) == score_of(self@, encoding),
    {
        proof {
            self.lemma_view();
        }
        let mut i: usize = 0;
        while i < CANDIDATE_COUNT
            invariant
                0 <= i <= CANDIDATE_COUNT,
                self.wf(),
                self@.candidates.len() == CANDIDATE_COUNT,
                forall|j: int|
                    0 <= j < CANDIDATE_COUNT ==> #[trigger] self@.candidates[j] == self.candidate(
                        j,
                    )@,
                first_place(encoding, 0) == first_place(encoding, i as int),
            decreases CANDIDATE_COUNT - i,
        {
            let candidate = &self.candidates[i];
            proof {
                assert(*candidate == self.candidate(i as int));
                assert(self@.candidates[i as int] == candidate@);
            }
            if encoding == candidate.encoding() {
                return candidate.score();
            }
            i += 1;
        }
        Some(0)
    }
}

} // verus!
