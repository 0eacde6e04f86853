//! A candidate: one of twelve scoring disciplines together with the score it
//! has gathered, which is lost for good once the candidate is disqualified.

use crate::arabic_french::{arabic_french_stepper, ArabicFrenchCandidate, ArabicFrenchState};
use crate::big5::{big5_stepper, Big5Candidate, Big5State};
use crate::caseless::{caseless_stepper, CaselessCandidate, CaselessState};
use crate::cjk::{
    close, decoder_after, decoder_end, end_status, lemma_reports_concat, reports, Unit,
};
use crate::data::{SingleByteData, TableView};
use crate::encoding::EncodingId;
use crate::euc_jp::{euc_jp_stepper, EucJpCandidate, EucJpState};
use crate::euc_kr::{euc_kr_stepper, EucKrCandidate, EucKrState};
use crate::gbk::{gbk_stepper, GbkCandidate, GbkState};
use crate::hebrew::{
    hebrew_initial, logical_stepper, visual_stepper, HebrewState, LogicalCandidate,
    VisualCandidate,
};
use crate::latin::{latin_stepper, LatinCandidate, LatinState};
use crate::non_latin::{non_latin_cased_stepper, NonLatinCasedCandidate, NonLatinCasedState};
use crate::scan::{as_int, ending, lemma_run_concat, run, shift, STEP_LIMIT, STREAM_LIMIT};
use crate::shift_jis::{shift_jis_stepper, ShiftJisCandidate, ShiftJisState};
use crate::utf8::{utf8_after, utf8_feed, Utf8Candidate};
use crate::word::MINIMUM_WORD_LENGTH;
use vstd::prelude::*;

verus! {

/// The twelve scoring disciplines.
pub enum InnerCandidate {
    Latin(LatinCandidate),
    NonLatinCased(NonLatinCasedCandidate),
    Caseless(CaselessCandidate),
    ArabicFrench(ArabicFrenchCandidate),
    Logical(LogicalCandidate),
    Visual(VisualCandidate),
    Utf8(Utf8Candidate),
    Shift(ShiftJisCandidate),
    EucJp(EucJpCandidate),
    EucKr(EucKrCandidate),
    Big5(Big5Candidate),
    Gbk(GbkCandidate),
}

/// What a candidate of any discipline remembers between bytes.
pub enum InnerState {
    Latin(LatinState),
    NonLatinCased(NonLatinCasedState),
    Caseless(CaselessState),
    ArabicFrench(ArabicFrenchState),
    Logical(HebrewState),
    Visual(HebrewState),
    Utf8,
    Shift(ShiftJisState),
    EucJp(EucJpState),
    EucKr(EucKrState),
    Big5(Big5State),
    Gbk(GbkState),
}

impl View for InnerCandidate {
    type V = InnerState;

    open spec fn view(&self) -> InnerState {
        match self {
            InnerCandidate::Latin(c) => InnerState::Latin(c@),
            InnerCandidate::NonLatinCased(c) => InnerState::NonLatinCased(c@),
            InnerCandidate::Caseless(c) => InnerState::Caseless(c@),
            InnerCandidate::ArabicFrench(c) => InnerState::ArabicFrench(c@),
            InnerCandidate::Logical(c) => InnerState::Logical(c@),
            InnerCandidate::Visual(c) => InnerState::Visual(c@),
            InnerCandidate::Utf8(_) => InnerState::Utf8,
            InnerCandidate::Shift(c) => InnerState::Shift(c@),
            InnerCandidate::EucJp(c) => InnerState::EucJp(c@),
            InnerCandidate::EucKr(c) => InnerState::EucKr(c@),
            InnerCandidate::Big5(c) => InnerState::Big5(c@),
            InnerCandidate::Gbk(c) => InnerState::Gbk(c@),
        }
    }
}

impl InnerState {
    /// Whether the discipline scores bytes by their class in a table.
    pub open spec fn is_single_byte(self) -> bool {
        self is Latin || self is NonLatinCased || self is Caseless || self is ArabicFrench
            || self is Logical || self is Visual
    }

    /// Whether the discipline scores the code units a decoder makes of each
    /// byte.
    pub open spec fn is_decoded(self) -> bool {
        self is Shift || self is EucJp || self is EucKr || self is Big5 || self is Gbk
    }

    /// The discipline, as its place among the twelve.
    pub open spec fn discipline(self) -> int {
        match self {
            InnerState::Latin(_) => 0,
            InnerState::NonLatinCased(_) => 1,
            InnerState::Caseless(_) => 2,
            InnerState::ArabicFrench(_) => 3,
            InnerState::Logical(_) => 4,
            InnerState::Visual(_) => 5,
            InnerState::Utf8 => 6,
            InnerState::Shift(_) => 7,
            InnerState::EucJp(_) => 8,
            InnerState::EucKr(_) => 9,
            InnerState::Big5(_) => 10,
            InnerState::Gbk(_) => 11,
        }
    }

    /// The largest of the counters in the state.
    pub open spec fn load(self) -> nat {
        match self {
            InnerState::NonLatinCased(s) => s.current_word_len,
            InnerState::Caseless(s) => s.current_word_len,
            InnerState::ArabicFrench(s) => s.current_word_len,
            InnerState::Logical(s) => if s.current_word_len >= s.plausible_punctuation {
                s.current_word_len
            } else {
                s.plausible_punctuation
            },
            InnerState::Visual(s) => if s.current_word_len >= s.plausible_punctuation {
                s.current_word_len
            } else {
                s.plausible_punctuation
            },
            InnerState::EucKr(s) => s.current_word_len,
            _ => 0,
        }
    }

    /// Length of the longest word seen, for the disciplines that are held
    /// back until they have seen a word.
    pub open spec fn longest_word(self) -> Option<nat> {
        match self {
            InnerState::NonLatinCased(s) => Some(s.longest_word),
            InnerState::Caseless(s) => Some(s.longest_word),
            InnerState::ArabicFrench(s) => Some(s.longest_word),
            InnerState::Logical(s) => Some(s.longest_word),
            InnerState::Visual(s) => Some(s.longest_word),
            _ => None,
        }
    }

    /// The state and the score after a single-byte discipline with the
    /// tables `t` is shown `bytes`.
    pub open spec fn fed_bytes(self, t: TableView, bytes: Seq<u8>) -> (InnerState, Option<int>) {
        match self {
            InnerState::Latin(s) => {
                let out = run(latin_stepper(t), s, bytes);
                (InnerState::Latin(out.0), out.1)
            },
            InnerState::NonLatinCased(s) => {
                let out = run(non_latin_cased_stepper(t), s, bytes);
                (InnerState::NonLatinCased(out.0), out.1)
            },
            InnerState::Caseless(s) => {
                let out = run(caseless_stepper(t), s, bytes);
                (InnerState::Caseless(out.0), out.1)
            },
            InnerState::ArabicFrench(s) => {
                let out = run(arabic_french_stepper(t), s, bytes);
                (InnerState::ArabicFrench(out.0), out.1)
            },
            InnerState::Logical(s) => {
                let out = run(logical_stepper(t), s, bytes);
                (InnerState::Logical(out.0), out.1)
            },
            InnerState::Visual(s) => {
                let out = run(visual_stepper(t), s, bytes);
                (InnerState::Visual(out.0), out.1)
            },
            _ => (self, Some(0int)),
        }
    }

    /// The state and the score after a decoding discipline with the table
    /// `frequent` is shown the bytes of `trace`, for which its decoder made
    /// the reports of `trace`.
    pub open spec fn fed_trace(self, frequent: Seq<u16>, trace: Seq<Unit>) -> (
        InnerState,
        Option<int>,
    ) {
        match self {
            InnerState::Shift(s) => {
                let out = run(shift_jis_stepper(frequent), s, trace);
                (InnerState::Shift(out.0), out.1)
            },
            InnerState::EucJp(s) => {
                let out = run(euc_jp_stepper(frequent), s, trace);
                (InnerState::EucJp(out.0), out.1)
            },
            InnerState::EucKr(s) => {
                let out = run(euc_kr_stepper(frequent), s, trace);
                (InnerState::EucKr(out.0), out.1)
            },
            InnerState::Big5(s) => {
                let out = run(big5_stepper(), s, trace);
                (InnerState::Big5(out.0), out.1)
            },
            InnerState::Gbk(s) => {
                let out = run(gbk_stepper(frequent), s, trace);
                (InnerState::Gbk(out.0), out.1)
            },
            _ => (self, Some(0int)),
        }
    }
}

/// The state and the score of a decoding discipline in state `before`,
/// with the table `frequent` and a decoder in the state `decoder`, after it
/// is fed `bytes`, as the end of the stream if `last` is set.
pub open spec fn fed_decoded(
    before: InnerState,
    frequent: Seq<u16>,
    decoder: encoding_rs::Decoder,
    bytes: Seq<u8>,
    last: bool,
) -> (InnerState, Option<int>) {
    close(before.fed_trace(frequent, reports(decoder, bytes)), last, end_status(decoder, bytes))
}

/// The state of the decoder of a discipline in state `state` after it is
/// fed `bytes` in one piece, as the end of the stream if `last` is set.
pub open spec fn decoder_then(
    state: InnerState,
    decoder: encoding_rs::Decoder,
    bytes: Seq<u8>,
    last: bool,
) -> encoding_rs::Decoder {
    if state is Utf8 {
        utf8_after(decoder, bytes, last)
    } else {
        decoder_end(decoder, bytes, last)
    }
}

impl InnerCandidate {
    /// The tables of a single-byte discipline.
    pub open spec fn table(&self) -> TableView {
        match self {
            InnerCandidate::Latin(c) => c.table(),
            InnerCandidate::NonLatinCased(c) => c.table(),
            InnerCandidate::Caseless(c) => c.table(),
            InnerCandidate::ArabicFrench(c) => c.table(),
            InnerCandidate::Logical(c) => c.table(),
            InnerCandidate::Visual(c) => c.table(),
            _ => arbitrary(),
        }
    }

    /// The table of frequent characters of a decoding discipline that has
    /// one.
    pub open spec fn frequent(&self) -> Seq<u16> {
        match self {
            InnerCandidate::Shift(c) => c.frequent(),
            InnerCandidate::EucJp(c) => c.frequent(),
            InnerCandidate::EucKr(c) => c.frequent(),
            InnerCandidate::Gbk(c) => c.frequent(),
            _ => Seq::empty(),
        }
    }

    /// The state of the decoder of the discipline, if it has one.
    pub open spec fn decoder(&self) -> encoding_rs::Decoder {
        match self {
            InnerCandidate::Utf8(c) => c.decoder(),
            InnerCandidate::Shift(c) => c.decoder(),
            InnerCandidate::EucJp(c) => c.decoder(),
            InnerCandidate::EucKr(c) => c.decoder(),
            InnerCandidate::Big5(c) => c.decoder(),
            InnerCandidate::Gbk(c) => c.decoder(),
            _ => arbitrary(),
        }
    }

    /// Whether the decoder of the discipline, if it has one, has been closed.
    pub open spec fn finished(&self) -> bool {
        match self {
            InnerCandidate::Utf8(c) => c.finished(),
            InnerCandidate::Shift(c) => c.finished(),
            InnerCandidate::EucJp(c) => c.finished(),
            InnerCandidate::EucKr(c) => c.finished(),
            InnerCandidate::Big5(c) => c.finished(),
            InnerCandidate::Gbk(c) => c.finished(),
            _ => false,
        }
    }

    /// The candidate within is well formed.
    pub open spec fn wf(&self) -> bool {
        match self {
            InnerCandidate::Latin(c) => c.wf(),
            InnerCandidate::NonLatinCased(c) => c.wf(),
            InnerCandidate::Caseless(c) => c.wf(),
            InnerCandidate::ArabicFrench(c) => c.wf(),
            InnerCandidate::Logical(c) => c.wf(),
            InnerCandidate::Visual(c) => c.wf(),
            InnerCandidate::Shift(c) => c.wf(),
            _ => true,
        }
    }

    /// Shows `buffer` to the candidate, and signals the end of the stream if
    /// `last` is set: a single-byte discipline is then shown a space, and a
    /// decoder is closed. Returns the score gathered, or `None` if the
    /// candidate is disqualified.
    pub fn feed(&mut self, buffer: &[u8], last: bool) -> (r: Option<i64>)
        requires
            old(self).wf(),
            !old(self).finished(),
            old(self)@.load() + buffer@.len() + 1 <= STREAM_LIMIT,
        ensures
            final(self).wf(),
            final(self).table() == old(self).table(),
            final(self).frequent() == old(self).frequent(),
            old(self)@.is_single_byte() ==> (final(self)@, as_int(r)) == old(self)@.fed_bytes(
                old(self).table(),
                buffer@ + ending(last),
            ),
            final(self)@.discipline() == old(self)@.discipline(),
            old(self)@ is Utf8 ==> as_int(r) == utf8_feed(old(self).decoder(), buffer@, last),
            old(self)@.is_decoded() ==> (final(self)@, as_int(r)) == fed_decoded(
                old(self)@,
                old(self).frequent(),
                old(self).decoder(),
                buffer@,
                last,
            ),
            r is Some && !old(self)@.is_single_byte() ==> final(self).decoder() == decoder_then(
                old(self)@,
                old(self).decoder(),
                buffer@,
                last,
            ),
            !last ==> !final(self).finished(),
            final(self)@.load() <= old(self)@.load() + buffer@.len() + 1,
            r is Some ==> -STEP_LIMIT * (buffer@.len() + 1) <= r->0 <= STEP_LIMIT * (buffer@.len()
                + 1),
    {
        match self {
            InnerCandidate::Latin(c) => c.feed_with_end(buffer, last),
            InnerCandidate::NonLatinCased(c) => c.feed_with_end(buffer, last),
            InnerCandidate::Caseless(c) => c.feed_with_end(buffer, last),
            InnerCandidate::ArabicFrench(c) => c.feed_with_end(buffer, last),
            InnerCandidate::Logical(c) => c.feed_with_end(buffer, last),
            InnerCandidate::Visual(c) => c.feed_with_end(buffer, last),
            InnerCandidate::Utf8(c) => c.feed(buffer, last),
            InnerCandidate::Shift(c) => c.feed(buffer, last),
            InnerCandidate::EucJp(c) => c.feed(buffer, last),
            InnerCandidate::EucKr(c) => c.feed(buffer, last),
            InnerCandidate::Big5(c) => c.feed(buffer, last),
            InnerCandidate::Gbk(c) => c.feed(buffer, last),
        }
    }
}

/// Largest magnitude a score can reach in the life of a candidate.
pub const SCORE_LIMIT: i64 = 0x7FFF_FFFF_FFFF_0000;

/// A discipline and the score it has gathered.
pub struct CandidateState {
    pub inner: InnerState,
    /// The score so far, or `None` once the candidate is disqualified.
    pub score: Option<int>,
}

/// How far a score is from zero; a lost score counts as zero.
pub open spec fn magnitude(score: Option<int>) -> nat {
    match score {
        Some(x) => if x >= 0 {
            x as nat
        } else {
            (-x) as nat
        },
        None => 0,
    }
}

/// The sum of a score and of what a buffer contributes: lost if either is.
pub open spec fn accumulate(score: Option<int>, more: Option<int>) -> Option<int> {
    match (score, more) {
        (Some(a), Some(b)) => Some(a + b),
        _ => None,
    }
}

impl CandidateState {
    /// The candidate after its discipline came to `out.0` and contributed
    /// `out.1`.
    pub open spec fn absorb(self, out: (InnerState, Option<int>)) -> CandidateState {
        CandidateState { inner: out.0, score: accumulate(self.score, out.1) }
    }

    /// A single-byte candidate with the tables `t` after it is shown
    /// `bytes`: a disqualified candidate is shown nothing.
    pub open spec fn fed_bytes(self, t: TableView, bytes: Seq<u8>) -> CandidateState {
        if self.score is None {
            self
        } else {
            self.absorb(self.inner.fed_bytes(t, bytes))
        }
    }

    /// The score the candidate enters the verdict with: none while a
    /// discipline that waits for a word of two letters has not seen one.
    pub open spec fn reported_score(self) -> Option<int> {
        match self.inner.longest_word() {
            Some(n) => if n < MINIMUM_WORD_LENGTH {
                None
            } else {
                self.score
            },
            None => self.score,
        }
    }

    /// The number of plausible pairs of letter and punctuation that a Hebrew
    /// candidate has counted.
    pub open spec fn plausible_punctuation(self) -> nat {
        match self.inner {
            InnerState::Logical(s) => s.plausible_punctuation,
            InnerState::Visual(s) => s.plausible_punctuation,
            _ => 0,
        }
    }

    /// The encoding a candidate in this state with the tables `t` stands
    /// for.
    pub open spec fn encoding(self, t: TableView) -> EncodingId {
        match self.inner {
            InnerState::Utf8 => EncodingId::Utf8,
            InnerState::Shift(_) => EncodingId::ShiftJis,
            InnerState::EucJp(_) => EncodingId::EucJp,
            InnerState::EucKr(_) => EncodingId::EucKr,
            InnerState::Big5(_) => EncodingId::Big5,
            InnerState::Gbk(_) => EncodingId::Gbk,
            _ => t.encoding,
        }
    }
}

/// Showing a single-byte candidate `a` and then `b` is the same as showing
/// it their concatenation.
pub proof fn lemma_fed_bytes_concat(c: CandidateState, t: TableView, a: Seq<u8>, b: Seq<u8>)
    ensures
        c.fed_bytes(t, a).fed_bytes(t, b) == c.fed_bytes(t, a + b),
{
    if c.score is Some {
        match c.inner {
            InnerState::Latin(s) => {
                lemma_run_concat(latin_stepper(t), s, a, b);
            },
            InnerState::NonLatinCased(s) => {
                lemma_run_concat(non_latin_cased_stepper(t), s, a, b);
            },
            InnerState::Caseless(s) => {
                lemma_run_concat(caseless_stepper(t), s, a, b);
            },
            InnerState::ArabicFrench(s) => {
                lemma_run_concat(arabic_french_stepper(t), s, a, b);
            },
            InnerState::Logical(s) => {
                lemma_run_concat(logical_stepper(t), s, a, b);
            },
            InnerState::Visual(s) => {
                lemma_run_concat(visual_stepper(t), s, a, b);
            },
            _ => {},
        }
    }
}

/// One of the detector's candidates.
pub struct Candidate {
    inner: InnerCandidate,
    score: Option<i64>,
}

impl View for Candidate {
    type V = CandidateState;

    closed spec fn view(&self) -> CandidateState {
        CandidateState { inner: self.inner@, score: as_int(self.score) }
    }
}

/// What a detector shows to its candidates at a time: some bytes and, if
/// `last` is set, the end of the stream after them. Where `replayed` is set,
/// the first of the bytes is one that was held back: the candidates were
/// handed it by itself, and the rest after it.
pub struct Shown {
    pub bytes: Seq<u8>,
    pub last: bool,
    pub replayed: bool,
}

/// A decoding discipline that is shown one trace after the other goes on
/// from where the first left it, unless the first ended in a rejection.
proof fn lemma_fed_trace_concat(s: InnerState, frequent: Seq<u16>, a: Seq<Unit>, b: Seq<Unit>)
    ensures
        s.fed_trace(frequent, a + b) == match s.fed_trace(frequent, a).1 {
            Some(x) => shift(x, s.fed_trace(frequent, a).0.fed_trace(frequent, b)),
            None => s.fed_trace(frequent, a),
        },
{
    match s {
        InnerState::Shift(x) => {
            lemma_run_concat(shift_jis_stepper(frequent), x, a, b);
        },
        InnerState::EucJp(x) => {
            lemma_run_concat(euc_jp_stepper(frequent), x, a, b);
        },
        InnerState::EucKr(x) => {
            lemma_run_concat(euc_kr_stepper(frequent), x, a, b);
        },
        InnerState::Big5(x) => {
            lemma_run_concat(big5_stepper(), x, a, b);
        },
        InnerState::Gbk(x) => {
            lemma_run_concat(gbk_stepper(frequent), x, a, b);
        },
        _ => {
            assert(shift(0, (s, Some(0int))) == (s, Some(0int)));
        },
    }
}

/// Feeding a decoding discipline `a` and then `b` is feeding it their
/// concatenation: it goes on from where `a` left it, with the decoder as `a`
/// left it, unless it rejected `a`.
pub proof fn lemma_fed_decoded_concat(
    s: InnerState,
    frequent: Seq<u16>,
    decoder: encoding_rs::Decoder,
    a: Seq<u8>,
    b: Seq<u8>,
    last: bool,
)
    ensures
        fed_decoded(s, frequent, decoder, a + b, last) == match fed_decoded(
            s,
            frequent,
            decoder,
            a,
            false,
        ).1 {
            Some(x) => shift(
                x,
                fed_decoded(
                    fed_decoded(s, frequent, decoder, a, false).0,
                    frequent,
                    decoder_after(decoder, a),
                    b,
                    last,
                ),
            ),
            None => fed_decoded(s, frequent, decoder, a, false),
        },
        decoder_end(decoder, a + b, last) == decoder_end(decoder_after(decoder, a), b, last),
{
    lemma_reports_concat(decoder, a, b);
    lemma_fed_trace_concat(
        s,
        frequent,
        reports(decoder, a),
        reports(decoder_after(decoder, a), b),
    );
}

/// What the decoder of UTF-8 makes of what it is shown: of the byte that
/// was held back, if there is one, and then of the rest.
pub open spec fn utf8_shown(decoder: encoding_rs::Decoder, what: Shown) -> Option<int> {
    if what.replayed && what.bytes.len() > 0 {
        accumulate(
            utf8_feed(decoder, what.bytes.take(1), false),
            utf8_feed(
                utf8_after(decoder, what.bytes.take(1), false),
                what.bytes.skip(1),
                what.last,
            ),
        )
    } else {
        utf8_feed(decoder, what.bytes, what.last)
    }
}

/// The state of the decoder of UTF-8 after that, if it accepted.
pub open spec fn utf8_shown_after(decoder: encoding_rs::Decoder, what: Shown)
    -> encoding_rs::Decoder {
    if what.replayed && what.bytes.len() > 0 {
        utf8_after(utf8_after(decoder, what.bytes.take(1), false), what.bytes.skip(1), what.last)
    } else {
        utf8_after(decoder, what.bytes, what.last)
    }
}

/// How a candidate stands after it was shown `what` to how it stood before.
/// A disqualified candidate stays as it is. A single-byte candidate is where
/// its step takes it over the bytes, and over the space that stands for the
/// end of the stream. A decoding candidate is where its step takes it over
/// the bytes with what its decoder reports of them. The candidate for UTF-8
/// keeps its score if its decoder accepts, and loses it if not. Any
/// candidate keeps its discipline and its tables.
pub open spec fn shown(before: Candidate, after: Candidate, what: Shown) -> bool {
    &&& after.table() == before.table()
    &&& after.frequent() == before.frequent()
    &&& after@.inner.discipline() == before@.inner.discipline()
    &&& before@.score is None ==> after == before
    &&& before@.inner.is_single_byte() ==> after@ == before@.fed_bytes(
        before.table(),
        what.bytes + ending(what.last),
    )
    &&& before@.score is Some && before@.inner.is_decoded() ==> {
        &&& after@ == before@.absorb(
            fed_decoded(
                before@.inner,
                before.frequent(),
                before.decoder(),
                what.bytes,
                what.last,
            ),
        )
        &&& after@.score is Some ==> after.decoder() == decoder_end(
            before.decoder(),
            what.bytes,
            what.last,
        )
    }
    &&& before@.score is Some && before@.inner is Utf8 ==> {
        &&& after@.score == accumulate(before@.score, utf8_shown(before.decoder(), what))
        &&& after@.score is Some ==> after.decoder() == utf8_shown_after(before.decoder(), what)
    }
}

/// For every discipline but UTF-8, being shown `a` and then `b` is being
/// shown their concatenation.
pub proof fn lemma_shown_concat(
    first: Candidate,
    second: Candidate,
    third: Candidate,
    a: Shown,
    b: Shown,
    replayed: bool,
)
    requires
        !(first@.inner is Utf8),
        !a.last,
        shown(first, second, a),
        shown(second, third, b),
    ensures
        shown(first, third, Shown { bytes: a.bytes + b.bytes, last: b.last, replayed }),
{
    assert(a.bytes + ending(false) =~= a.bytes);
    assert(a.bytes + (b.bytes + ending(b.last)) =~= (a.bytes + b.bytes) + ending(b.last));
    lemma_fed_bytes_concat(first@, first.table(), a.bytes, b.bytes + ending(b.last));
    if first@.score is Some && first@.inner.is_decoded() {
        lemma_fed_decoded_concat(
            first@.inner,
            first.frequent(),
            first.decoder(),
            a.bytes,
            b.bytes,
            b.last,
        );
    }
}

/// Being shown a byte that was held back, and then `b`, is being shown the
/// two at a time with the byte replayed.
pub proof fn lemma_shown_replay(
    first: Candidate,
    second: Candidate,
    third: Candidate,
    held: Seq<u8>,
    b: Shown,
)
    requires
        held.len() == 1,
        !b.replayed,
        shown(first, second, Shown { bytes: held, last: false, replayed: false }),
        shown(second, third, b),
    ensures
        shown(first, third, Shown { bytes: held + b.bytes, last: b.last, replayed: true }),
{
    let whole = held + b.bytes;
    assert(whole.take(1) =~= held);
    assert(whole.skip(1) =~= b.bytes);
    if !(first@.inner is Utf8) {
        lemma_shown_concat(
            first,
            second,
            third,
            Shown { bytes: held, last: false, replayed: false },
            b,
            true,
        );
    }
}

impl Candidate {
    /// The tables of a single-byte candidate.
    pub closed spec fn table(&self) -> TableView {
        self.inner.table()
    }

    /// The table of frequent characters of a decoding candidate that has one.
    pub closed spec fn frequent(&self) -> Seq<u16> {
        self.inner.frequent()
    }

    /// The state of the candidate's decoder, if it has one.
    pub closed spec fn decoder(&self) -> encoding_rs::Decoder {
        self.inner.decoder()
    }

    /// Whether the candidate's decoder, if it has one, has been closed.
    pub closed spec fn finished(&self) -> bool {
        self.inner.finished()
    }

    /// The discipline within is well formed.
    pub closed spec fn wf(&self) -> bool {
        self.inner.wf()
    }

    /// Whether showing the candidate `len` more bytes and the end of the
    /// stream keeps its counters and its score within their limits. A
    /// disqualified candidate is shown nothing, so it always has room.
    pub open spec fn has_room(&self, len: nat) -> bool {
        self@.score is Some ==> {
            &&& !self.finished()
            &&& self@.inner.load() + len + 1 <= STREAM_LIMIT
            &&& magnitude(self@.score) + STEP_LIMIT * (len + 1) <= SCORE_LIMIT
        }
    }

    /// The encoding this candidate stands for.
    pub open spec fn id(&self) -> EncodingId {
        self@.encoding(self.table())
    }

    /// Shows `buffer` to the candidate, and the end of the stream if `last`
    /// is set, unless it is disqualified already. A candidate that rejects
    /// the buffer is disqualified from then on.
    pub fn feed(&mut self, buffer: &[u8], last: bool)
        requires
            old(self).wf(),
            old(self).has_room(buffer@.len()),
        ensures
            final(self).wf(),
            final(self).table() == old(self).table(),
            final(self).frequent() == old(self).frequent(),
            shown(*old(self), *final(self), Shown { bytes: buffer@, last, replayed: false }),
            !last && !old(self).finished() ==> !final(self).finished(),
            final(self)@.inner.load() <= old(self)@.inner.load() + buffer@.len() + 1,
            magnitude(final(self)@.score) <= magnitude(old(self)@.score) + STEP_LIMIT * (
            buffer@.len() + 1),
    {
        if let Some(old_score) = self.score {
            proof {
                assert(STEP_LIMIT * (buffer@.len() + 1) <= SCORE_LIMIT) by (nonlinear_arith)
                    requires
                        magnitude(Some(old_score as int)) + STEP_LIMIT * (buffer@.len() + 1)
                            <= SCORE_LIMIT,
                ;
            }
            let r = self.inner.feed(buffer, last);
            if let Some(new_score) = r {
                self.score = Some(old_score + new_score);
            } else {
                self.score = None;
            }
            proof {
                assert(as_int(self.score) == accumulate(Some(old_score as int), as_int(r)));
            }
        }
    }

    /// A candidate for a Latin-alphabet encoding.
    pub fn new_latin(data: &'static SingleByteData) -> (r: Self)
        requires
            data.wf(),
        ensures
            r.wf(),
            !r.finished(),
            r.table() == data@,
            r@ == (CandidateState {
                inner: InnerState::Latin(LatinCandidate::initial()),
                score: Some(0int),
            }),
    {
        Candidate { inner: InnerCandidate::Latin(LatinCandidate::new(data)), score: Some(0) }
    }

    /// A candidate for an encoding of a cased non-Latin script.
    pub fn new_non_latin_cased(data: &'static SingleByteData) -> (r: Self)
        requires
            data.wf(),
        ensures
            r.wf(),
            !r.finished(),
            r.table() == data@,
            r@ == (CandidateState {
                inner: InnerState::NonLatinCased(NonLatinCasedCandidate::initial()),
                score: Some(0int),
            }),
    {
        Candidate {
            inner: InnerCandidate::NonLatinCased(NonLatinCasedCandidate::new(data)),
            score: Some(0),
        }
    }

    /// A candidate for an encoding of a caseless script.
    pub fn new_caseless(data: &'static SingleByteData) -> (r: Self)
        requires
            data.wf(),
        ensures
            r.wf(),
            !r.finished(),
            r.table() == data@,
            r@ == (CandidateState {
                inner: InnerState::Caseless(CaselessCandidate::initial()),
                score: Some(0int),
            }),
    {
        Candidate { inner: InnerCandidate::Caseless(CaselessCandidate::new(data)), score: Some(0) }
    }

    /// A candidate for Arabic script mixed with French.
    pub fn new_arabic_french(data: &'static SingleByteData) -> (r: Self)
        requires
            data.wf(),
        ensures
            r.wf(),
            !r.finished(),
            r.table() == data@,
            r@ == (CandidateState {
                inner: InnerState::ArabicFrench(ArabicFrenchCandidate::initial()),
                score: Some(0int),
            }),
    {
        Candidate {
            inner: InnerCandidate::ArabicFrench(ArabicFrenchCandidate::new(data)),
            score: Some(0),
        }
    }

    /// A candidate for Hebrew in reading order.
    pub fn new_logical(data: &'static SingleByteData) -> (r: Self)
        requires
            data.wf(),
        ensures
            r.wf(),
            !r.finished(),
            r.table() == data@,
            r@ == (CandidateState {
                inner: InnerState::Logical(hebrew_initial()),
                score: Some(0int),
            }),
    {
        Candidate { inner: InnerCandidate::Logical(LogicalCandidate::new(data)), score: Some(0) }
    }

    /// A candidate for Hebrew in display order.
    pub fn new_visual(data: &'static SingleByteData) -> (r: Self)
        requires
            data.wf(),
        ensures
            r.wf(),
            !r.finished(),
            r.table() == data@,
            r@ == (CandidateState {
                inner: InnerState::Visual(hebrew_initial()),
                score: Some(0int),
            }),
    {
        Candidate { inner: InnerCandidate::Visual(VisualCandidate::new(data)), score: Some(0) }
    }

    /// A candidate for UTF-8.
    pub fn new_utf_8() -> (r: Self)
        ensures
            r.wf(),
            !r.finished(),
            r@ == (CandidateState { inner: InnerState::Utf8, score: Some(0int) }),
    {
        Candidate { inner: InnerCandidate::Utf8(Utf8Candidate::new()), score: Some(0) }
    }

    /// A candidate for Shift_JIS that takes its bonus from `frequent_kanji`.
    pub fn new_shift_jis(frequent_kanji: &'static [u16; 128]) -> (r: Self)
        ensures
            r.wf(),
            !r.finished(),
            r.frequent() == frequent_kanji@,
            r@ == (CandidateState {
                inner: InnerState::Shift(ShiftJisCandidate::initial()),
                score: Some(0int),
            }),
    {
        Candidate {
            inner: InnerCandidate::Shift(ShiftJisCandidate::new(frequent_kanji)),
            score: Some(0),
        }
    }

    /// A candidate for EUC-JP that takes its bonus from `frequent_kanji`.
    pub fn new_euc_jp(frequent_kanji: &'static [u16; 128]) -> (r: Self)
        ensures
            r.wf(),
            !r.finished(),
            r.frequent() == frequent_kanji@,
            r@ == (CandidateState {
                inner: InnerState::EucJp(EucJpCandidate::initial()),
                score: Some(0int),
            }),
    {
        Candidate {
            inner: InnerCandidate::EucJp(EucJpCandidate::new(frequent_kanji)),
            score: Some(0),
        }
    }

    /// A candidate for EUC-KR that takes its bonus from `frequent_hangul`.
    pub fn new_euc_kr(frequent_hangul: &'static [u16; 128]) -> (r: Self)
        ensures
            r.wf(),
            !r.finished(),
            r.frequent() == frequent_hangul@,
            r@ == (CandidateState {
                inner: InnerState::EucKr(EucKrCandidate::initial()),
                score: Some(0int),
            }),
    {
        Candidate {
            inner: InnerCandidate::EucKr(EucKrCandidate::new(frequent_hangul)),
            score: Some(0),
        }
    }

    /// A candidate for Big5.
    pub fn new_big5() -> (r: Self)
        ensures
            r.wf(),
            !r.finished(),
            r@ == (CandidateState {
                inner: InnerState::Big5(Big5Candidate::initial()),
                score: Some(0int),
            }),
    {
        Candidate { inner: InnerCandidate::Big5(Big5Candidate::new()), score: Some(0) }
    }

    /// A candidate for GBK that takes its bonus from `frequent_simplified`.
    pub fn new_gbk(frequent_simplified: &'static [u16; 128]) -> (r: Self)
        ensures
            r.wf(),
            !r.finished(),
            r.frequent() == frequent_simplified@,
            r@ == (CandidateState {
                inner: InnerState::Gbk(GbkCandidate::initial()),
                score: Some(0int),
            }),
    {
        Candidate {
            inner: InnerCandidate::Gbk(GbkCandidate::new(frequent_simplified)),
            score: Some(0),
        }
    }

    /// Whether the candidate has not been disqualified.
    pub fn is_live(&self) -> (r: bool)
        ensures
            r == self@.score is Some,
    {
        self.score.is_some()
    }

    /// The score the candidate enters the verdict with.
    pub fn score(&self) -> (r: Option<i64>)
        ensures
            as_int(r) == self@.reported_score(),
    {
        let longest = match &self.inner {
            InnerCandidate::NonLatinCased(c) => c.longest_word(),
            InnerCandidate::Caseless(c) => c.longest_word(),
            InnerCandidate::ArabicFrench(c) => c.longest_word(),
            InnerCandidate::Logical(c) => c.longest_word(),
            InnerCandidate::Visual(c) => c.longest_word(),
            _ => MINIMUM_WORD_LENGTH,
        };
        if longest < MINIMUM_WORD_LENGTH {
            None
        } else {
            self.score
        }
    }

    /// The number of plausible pairs of letter and punctuation that a Hebrew
    /// candidate has counted.
    pub fn plausible_punctuation(&self) -> (r: u64)
        requires
            self@.inner is Logical || self@.inner is Visual,
        ensures
            r == self@.plausible_punctuation(),
    {
        match &self.inner {
            InnerCandidate::Logical(c) => c.plausible_punctuation(),
            InnerCandidate::Visual(c) => c.plausible_punctuation(),
            _ => 0,
        }
    }

    /// The encoding this candidate stands for.
    pub fn encoding(&self) -> (r: EncodingId)
        ensures
            r == self.id(),
    {
        match &self.inner {
            InnerCandidate::Latin(c) => c.encoding(),
            InnerCandidate::NonLatinCased(c) => c.encoding(),
            InnerCandidate::Caseless(c) => c.encoding(),
            InnerCandidate::ArabicFrench(c) => c.encoding(),
            InnerCandidate::Logical(c) => c.encoding(),
            InnerCandidate::Visual(c) => c.encoding(),
            InnerCandidate::Shift(_) => EncodingId::ShiftJis,
            InnerCandidate::EucJp(_) => EncodingId::EucJp,
            InnerCandidate::Big5(_) => EncodingId::Big5,
            InnerCandidate::EucKr(_) => EncodingId::EucKr,
            InnerCandidate::Gbk(_) => EncodingId::Gbk,
            InnerCandidate::Utf8(_) => EncodingId::Utf8,
        }
    }
}

} // verus!
