//! What holds of the detector as a whole, proved from the contracts of its
//! parts.

use crate::arabic_french::arabic_french_stepper;
use crate::candidate::{
    lemma_fed_bytes_concat, lemma_shown_concat, shown, utf8_shown, Candidate, CandidateState,
    InnerState, Shown,
};
use crate::caseless::caseless_stepper;
use crate::data::{TableView, INVALID_CLASS};
use crate::detector::{
    best_upto, encoding_at, first_hit, holding_back, initial_state, is_hit, lemma_best_upto,
    lemma_first_hit, lemma_first_hit_is, lemma_non_ascii_count_bound,
    lemma_non_ascii_count_concat, replay, route, verdict, visual_wins, DetectorState,
    EncodingDetector, Progress, Routed, CANDIDATE_COUNT, ESCAPE, FIRST_NORMAL, LOGICAL_INDEX,
    UTF_8_INDEX, VISUAL_INDEX,
};
use crate::encoding::EncodingId;
use crate::hebrew::{logical_stepper, visual_stepper};
use crate::latin::latin_stepper;
use crate::non_latin::non_latin_cased_stepper;
use crate::scan::{ending, lemma_invalid_byte_rejects};
use vstd::prelude::*;

verus! {

/// A buffer that holds neither a byte outside ASCII nor an escape.
pub open spec fn plain_ascii(buffer: Seq<u8>) -> bool {
    forall|j: int| 0 <= j < buffer.len() ==> !is_hit(#[trigger] buffer[j])
}

/// No candidate has gathered a score above zero.
pub open spec fn nothing_scored(s: DetectorState) -> bool {
    &&& s.candidates.len() == CANDIDATE_COUNT
    &&& forall|i: int|
        0 <= i < s.candidates.len() && (#[trigger] s.candidates[i]).reported_score() is Some
            ==> s.candidates[i].reported_score()->0 <= 0
}

/// A detector that holds back and in which nothing has scored answers
/// windows-1252, whether UTF-8 is allowed or not.
pub proof fn lemma_nothing_scored_verdict(s: DetectorState, allow_utf8: bool)
    requires
        nothing_scored(s),
        holding_back(s.progress),
    ensures
        verdict(s, allow_utf8) == EncodingId::Windows1252,
{
    lemma_best_upto(s.candidates, CANDIDATE_COUNT as int);
    let best = best_upto(s.candidates, CANDIDATE_COUNT as int);
    if best.max > 0 {
        let i = choose|i: int|
            FIRST_NORMAL <= i < CANDIDATE_COUNT && (#[trigger] s.candidates[i]).reported_score()
                == Some(best.max);
        assert(s.candidates[i].reported_score()->0 <= 0);
    }
    assert(s.candidates[VISUAL_INDEX as int].reported_score() is Some
        ==> s.candidates[VISUAL_INDEX as int].reported_score()->0 <= 0);
}

/// ASCII is neutral: a detector that holds back shows nothing of a buffer of
/// plain ASCII to its candidates and goes on holding back, having seen no
/// byte outside ASCII; and if nothing had scored, as in a detector that is
/// new, it answers windows-1252.
pub proof fn lemma_ascii_neutrality(s: DetectorState, buffer: Seq<u8>, last: bool, allow_utf8: bool)
    requires
        holding_back(s.progress),
        plain_ascii(buffer),
    ensures
        route(s.progress, buffer, last).shown is None,
        route(s.progress, buffer, last).progress.non_ascii_seen == 0,
        holding_back(route(s.progress, buffer, last).progress),
        nothing_scored(s) ==> verdict(
            DetectorState {
                candidates: s.candidates,
                progress: route(s.progress, buffer, last).progress,
            },
            allow_utf8,
        ) == EncodingId::Windows1252,
{
    lemma_first_hit_is(buffer, buffer.len() as int);
    if nothing_scored(s) {
        lemma_nothing_scored_verdict(
            DetectorState {
                candidates: s.candidates,
                progress: route(s.progress, buffer, last).progress,
            },
            allow_utf8,
        );
    }
}

/// A detector that holds back has shown its candidates nothing: it holds
/// back after a buffer only if it held back before and showed nothing of the
/// buffer.
pub proof fn lemma_holding_back_shows_nothing(p: Progress, buffer: Seq<u8>, last: bool)
    requires
        holding_back(route(p, buffer, last).progress),
    ensures
        holding_back(p),
        route(p, buffer, last).shown is None,
{
    lemma_non_ascii_count_bound(buffer);
    lemma_first_hit(buffer, 0);
    if holding_back(p) && first_hit(buffer) < buffer.len() {
        lemma_hit_ends_holding_back(p, buffer, last);
    }
}

/// ASCII neutrality, feed by feed: a detector that holds back and is fed a
/// buffer of plain ASCII, which may be empty, leaves its candidates as they
/// are, goes on holding back with no byte outside ASCII seen, and is not
/// closed. If nothing had scored before, nothing has scored after, and the
/// detector answers windows-1252. A new detector holds back and has scored
/// nothing, so this holds after any number of such feeds.
pub proof fn lemma_ascii_feed(
    before: EncodingDetector,
    after: EncodingDetector,
    buffer: Seq<u8>,
    last: bool,
    allow_utf8: bool,
)
    requires
        before.fed(after, buffer, last),
        holding_back(before@.progress),
        plain_ascii(buffer),
    ensures
        after@.candidates == before@.candidates,
        holding_back(after@.progress),
        after@.progress.non_ascii_seen == 0,
        !after.closed(),
        nothing_scored(before@) ==> nothing_scored(after@) && verdict(after@, allow_utf8)
            == EncodingId::Windows1252,
{
    lemma_ascii_neutrality(before@, buffer, last, allow_utf8);
    before.lemma_view();
    after.lemma_view();
    assert(after@.candidates =~= before@.candidates);
    assert(after@ == (DetectorState {
        candidates: before@.candidates,
        progress: route(before@.progress, buffer, last).progress,
    }));
}

/// A detector that is new has scored nothing.
pub proof fn lemma_new_has_nothing_scored()
    ensures
        nothing_scored(initial_state()),
        holding_back(initial_state().progress),
{
}

/// A buffer that holds a byte outside ASCII leaves the detector with a
/// count of such bytes above zero.
pub proof fn lemma_non_ascii_is_counted(p: Progress, buffer: Seq<u8>, last: bool)
    requires
        exists|j: int| 0 <= j < buffer.len() && #[trigger] buffer[j] >= 0x80,
    ensures
        route(p, buffer, last).progress.non_ascii_seen > 0,
{
    let j = choose|j: int| 0 <= j < buffer.len() && #[trigger] buffer[j] >= 0x80;
    lemma_non_ascii_count_bound(buffer);
    if holding_back(p) {
        lemma_first_hit(buffer, 0);
        let start = first_hit(buffer);
        assert(start <= j) by {
            if j < start {
                assert(!is_hit(buffer[j]));
            }
        }
        if start > 0 {
            let tail = buffer.subrange(start - 1, buffer.len() as int);
            lemma_non_ascii_count_bound(tail);
            assert(tail[j - (start - 1)] == buffer[j]);
        }
    }
}

/// UTF-8 comes first: while the candidate for UTF-8 is in the race, a
/// detector that has seen a byte outside ASCII and may answer UTF-8 does so.
pub proof fn lemma_utf8_comes_first(s: DetectorState)
    requires
        s.candidates[UTF_8_INDEX as int].score is Some,
        s.progress.non_ascii_seen > 0,
    ensures
        verdict(s, true) == EncodingId::Utf8,
{
}

/// Disqualification is for good: a candidate without a score is left as it
/// is whatever it is shown, and enters no verdict.
pub proof fn lemma_disqualified_stays(before: Candidate, after: Candidate, what: Shown)
    requires
        shown(before, after, what),
        before@.score is None,
    ensures
        after == before,
        after@.score is None,
        after@.reported_score() is None,
{
}

/// A byte that the tables of a single-byte candidate mark as impossible
/// disqualifies the candidate.
pub proof fn lemma_impossible_byte_disqualifies(c: CandidateState, t: TableView, bytes: Seq<u8>)
    requires
        c.inner.is_single_byte(),
        exists|i: int| 0 <= i < bytes.len() && t.classify(#[trigger] bytes[i]) == INVALID_CLASS,
    ensures
        c.fed_bytes(t, bytes).score is None,
        c.fed_bytes(t, bytes).reported_score() is None,
{
    match c.inner {
        InnerState::Latin(s) => {
            lemma_invalid_byte_rejects(t, latin_stepper(t), s, bytes);
        },
        InnerState::NonLatinCased(s) => {
            lemma_invalid_byte_rejects(t, non_latin_cased_stepper(t), s, bytes);
        },
        InnerState::Caseless(s) => {
            lemma_invalid_byte_rejects(t, caseless_stepper(t), s, bytes);
        },
        InnerState::ArabicFrench(s) => {
            lemma_invalid_byte_rejects(t, arabic_french_stepper(t), s, bytes);
        },
        InnerState::Logical(s) => {
            lemma_invalid_byte_rejects(t, logical_stepper(t), s, bytes);
        },
        InnerState::Visual(s) => {
            lemma_invalid_byte_rejects(t, visual_stepper(t), s, bytes);
        },
        _ => {},
    }
}

/// The tie-break of Hebrew: where neither the escape nor UTF-8 decides,
/// Hebrew in display order that scores above zero and above every candidate
/// in the race, and that has counted strictly more plausible punctuation
/// than Hebrew in reading order, is the verdict.
pub proof fn lemma_hebrew_tie_break(s: DetectorState, allow_utf8: bool)
    requires
        s.candidates.len() == CANDIDATE_COUNT,
        !(s.progress.non_ascii_seen == 0 && s.progress.esc_seen),
        !(allow_utf8 && s.candidates[UTF_8_INDEX as int].score is Some
            && s.progress.non_ascii_seen > 0),
        s.candidates[VISUAL_INDEX as int].reported_score() is Some,
        s.candidates[LOGICAL_INDEX as int].reported_score() is Some,
        s.candidates[VISUAL_INDEX as int].reported_score()->0 > 0,
        forall|i: int|
            FIRST_NORMAL <= i < CANDIDATE_COUNT && (#[trigger] s.candidates[i]).reported_score()
                is Some ==> s.candidates[i].reported_score()->0
                < s.candidates[VISUAL_INDEX as int].reported_score()->0,
        s.candidates[VISUAL_INDEX as int].plausible_punctuation()
            > s.candidates[LOGICAL_INDEX as int].plausible_punctuation(),
    ensures
        verdict(s, allow_utf8) == EncodingId::Iso8859_8,
{
    lemma_best_upto(s.candidates, CANDIDATE_COUNT as int);
    let best = best_upto(s.candidates, CANDIDATE_COUNT as int);
    if best.max > 0 {
        let i = choose|i: int|
            FIRST_NORMAL <= i < CANDIDATE_COUNT && (#[trigger] s.candidates[i]).reported_score()
                == Some(best.max);
        assert(s.candidates[i].reported_score()->0
            < s.candidates[VISUAL_INDEX as int].reported_score()->0);
    }
    assert(visual_wins(s.candidates, best.max));
}

/// Two detectors stand at the same point of a stream: they agree in what
/// they have counted, and in the byte they remember as long as it can still
/// be replayed.
pub open spec fn same_progress(p: Progress, q: Progress) -> bool {
    &&& p.non_ascii_seen == q.non_ascii_seen
    &&& p.esc_seen == q.esc_seen
    &&& holding_back(p) ==> p.last_before_non_ascii == q.last_before_non_ascii
}

/// What the candidates have been shown after being shown `a`, if anything,
/// and then `b`, if anything.
pub open spec fn join(a: Option<Shown>, b: Option<Shown>) -> Option<Shown> {
    match (a, b) {
        (Some(u), Some(v)) => Some(
            Shown { bytes: u.bytes + v.bytes, last: v.last, replayed: u.replayed },
        ),
        (Some(u), None) => Some(u),
        (None, _) => b,
    }
}

/// The candidates are shown the same bytes, followed or not by the end of
/// the stream. Whether a byte that was held back is handed over by itself
/// is left open: it makes no difference but to the decoder of UTF-8.
pub open spec fn same_shown(x: Option<Shown>, y: Option<Shown>) -> bool {
    match (x, y) {
        (Some(u), Some(v)) => u.bytes == v.bytes && u.last == v.last,
        (None, None) => true,
        _ => false,
    }
}

/// The concatenation of the chunks.
pub open spec fn flatten(chunks: Seq<Seq<u8>>) -> Seq<u8>
    decreases chunks.len(),
{
    if chunks.len() == 0 {
        Seq::empty()
    } else {
        flatten(chunks.drop_last()) + chunks.last()
    }
}

/// What feeding the chunks one after the other does to a detector that
/// stands at `p`; only the last of them is fed as the end of the stream, and
/// only if `last` is set.
pub open spec fn route_all(p: Progress, chunks: Seq<Seq<u8>>, last: bool) -> Routed
    decreases chunks.len(),
{
    if chunks.len() == 0 {
        Routed { progress: p, shown: None }
    } else {
        let before = route_all(p, chunks.drop_last(), false);
        let step = route(before.progress, chunks.last(), last);
        Routed { progress: step.progress, shown: join(before.shown, step.shown) }
    }
}

/// A single-byte candidate with the tables `t` after the detector showed it
/// `shown`, or nothing.
pub open spec fn fed_routed(c: CandidateState, t: TableView, shown: Option<Shown>)
    -> CandidateState {
    match shown {
        Some(what) => c.fed_bytes(t, what.bytes + ending(what.last)),
        None => c,
    }
}

/// A single-byte candidate with the tables `t` after the chunks were fed,
/// one after the other, to a detector that stood at `p`.
pub open spec fn fed_all(
    c: CandidateState,
    t: TableView,
    p: Progress,
    chunks: Seq<Seq<u8>>,
    last: bool,
) -> CandidateState
    decreases chunks.len(),
{
    if chunks.len() == 0 {
        c
    } else {
        fed_routed(
            fed_all(c, t, p, chunks.drop_last(), false),
            t,
            route(route_all(p, chunks.drop_last(), false).progress, chunks.last(), last).shown,
        )
    }
}

/// A buffer with a hit ends the holding back.
proof fn lemma_hit_ends_holding_back(p: Progress, buffer: Seq<u8>, last: bool)
    requires
        holding_back(p),
        first_hit(buffer) < buffer.len(),
    ensures
        !holding_back(route(p, buffer, last).progress),
        route(p, buffer, last).shown is Some,
{
    lemma_first_hit(buffer, 0);
    let start = first_hit(buffer);
    if buffer[start] != ESCAPE {
        if start == 0 {
            lemma_non_ascii_count_bound(buffer);
        } else {
            let tail = buffer.subrange(start - 1, buffer.len() as int);
            lemma_non_ascii_count_bound(tail);
            assert(tail[1] == buffer[start]);
        }
    }
}

/// Chunk invariance of two chunks for a detector that no longer holds back.
proof fn lemma_route_concat_flowing(p: Progress, a: Seq<u8>, b: Seq<u8>, last: bool)
    requires
        !holding_back(p),
    ensures
        same_progress(
            route(route(p, a, false).progress, b, last).progress,
            route(p, a + b, last).progress,
        ),
        same_shown(
            join(route(p, a, false).shown, route(route(p, a, false).progress, b, last).shown),
            route(p, a + b, last).shown,
        ),
{
    lemma_non_ascii_count_concat(a, b);
}

/// Chunk invariance of two chunks of which the first is plain ASCII, for a
/// detector that holds back.
proof fn lemma_route_concat_plain(p: Progress, a: Seq<u8>, b: Seq<u8>, last: bool)
    requires
        holding_back(p),
        first_hit(a) == a.len(),
    ensures
        same_progress(
            route(route(p, a, false).progress, b, last).progress,
            route(p, a + b, last).progress,
        ),
        same_shown(
            join(route(p, a, false).shown, route(route(p, a, false).progress, b, last).shown),
            route(p, a + b, last).shown,
        ),
{
    let first = route(p, a, false);
    let ab = a + b;
    lemma_first_hit(a, 0);
    lemma_first_hit(b, 0);
    let h = first_hit(b);
    assert forall|j: int| 0 <= j < a.len() + h implies !is_hit(#[trigger] ab[j]) by {
        if j < a.len() {
            assert(ab[j] == a[j]);
        } else {
            assert(ab[j] == b[j - a.len()]);
        }
    }
    if h < b.len() {
        assert(ab[a.len() + h] == b[h]);
        lemma_hit_ends_holding_back(first.progress, b, last);
    }
    lemma_first_hit_is(ab, a.len() + h);
    if h == b.len() {
        if b.len() > 0 {
            assert(ab.last() == b.last());
        } else {
            assert(ab =~= a);
        }
    } else if h == 0 && a.len() == 0 {
        assert(ab =~= b);
    } else if h == 0 {
        let held = seq![a.last()];
        assert(replay(first.progress) =~= held);
        assert(ab.subrange(a.len() - 1, ab.len() as int) =~= held + b);
        lemma_non_ascii_count_concat(held, b);
    } else {
        assert(ab.subrange(a.len() + h - 1, ab.len() as int) =~= b.subrange(h - 1, b.len() as int));
    }
}

/// Chunk invariance of two chunks of which the first holds a byte outside
/// ASCII or an escape, for a detector that holds back.
proof fn lemma_route_concat_hit(p: Progress, a: Seq<u8>, b: Seq<u8>, last: bool)
    requires
        holding_back(p),
        first_hit(a) < a.len(),
    ensures
        same_progress(
            route(route(p, a, false).progress, b, last).progress,
            route(p, a + b, last).progress,
        ),
        same_shown(
            join(route(p, a, false).shown, route(route(p, a, false).progress, b, last).shown),
            route(p, a + b, last).shown,
        ),
{
    let ab = a + b;
    lemma_non_ascii_count_concat(a, b);
    lemma_first_hit(a, 0);
    let h = first_hit(a);
    lemma_hit_ends_holding_back(p, a, false);
    assert forall|j: int| 0 <= j < h implies !is_hit(#[trigger] ab[j]) by {
        assert(ab[j] == a[j]);
    }
    assert(ab[h] == a[h]);
    lemma_first_hit_is(ab, h);
    if h == 0 {
        assert((replay(p) + a) + b =~= replay(p) + ab);
    } else {
        let tail = a.subrange(h - 1, a.len() as int);
        assert(ab.subrange(h - 1, ab.len() as int) =~= tail + b);
        lemma_non_ascii_count_concat(tail, b);
    }
}

/// Feeding `a` and then `b` shows the candidates what feeding their
/// concatenation shows them, and leaves the detector at the same point of
/// the stream.
pub proof fn lemma_route_concat(p: Progress, a: Seq<u8>, b: Seq<u8>, last: bool)
    ensures
        same_progress(
            route(route(p, a, false).progress, b, last).progress,
            route(p, a + b, last).progress,
        ),
        same_shown(
            join(route(p, a, false).shown, route(route(p, a, false).progress, b, last).shown),
            route(p, a + b, last).shown,
        ),
{
    lemma_first_hit(a, 0);
    if !holding_back(p) {
        lemma_route_concat_flowing(p, a, b, last);
    } else if first_hit(a) == a.len() {
        lemma_route_concat_plain(p, a, b, last);
    } else {
        lemma_route_concat_hit(p, a, b, last);
    }
}

/// Detectors that stand at the same point of a stream do the same with a
/// buffer.
pub proof fn lemma_route_respects(p: Progress, q: Progress, buffer: Seq<u8>, last: bool)
    requires
        same_progress(p, q),
    ensures
        route(p, buffer, last).shown == route(q, buffer, last).shown,
        same_progress(route(p, buffer, last).progress, route(q, buffer, last).progress),
{
}

/// Chunk invariance of what the detector shows: however a stream is cut
/// into chunks, empty ones among them, the candidates are shown the same
/// bytes as when the stream is fed in one piece, and the detector comes to
/// stand at the same point.
pub proof fn lemma_chunk_invariance_of_routing(p: Progress, chunks: Seq<Seq<u8>>, last: bool)
    requires
        chunks.len() > 0,
    ensures
        same_shown(route_all(p, chunks, last).shown, route(p, flatten(chunks), last).shown),
        same_progress(
            route_all(p, chunks, last).progress,
            route(p, flatten(chunks), last).progress,
        ),
    decreases chunks.len(),
{
    let front = chunks.drop_last();
    let chunk = chunks.last();
    if front.len() == 0 {
        assert(flatten(front) =~= Seq::<u8>::empty());
        assert(flatten(chunks) =~= chunk);
    } else {
        lemma_chunk_invariance_of_routing(p, front, false);
        let before = route_all(p, front, false);
        let whole_front = route(p, flatten(front), false);
        lemma_route_respects(before.progress, whole_front.progress, chunk, last);
        lemma_route_concat(p, flatten(front), chunk, last);
    }
}

/// Showing a candidate two pieces one after the other is showing it the
/// pieces joined.
pub proof fn lemma_fed_routed_join(
    c: CandidateState,
    t: TableView,
    a: Option<Shown>,
    b: Option<Shown>,
)
    requires
        a is Some ==> !a->0.last,
    ensures
        fed_routed(fed_routed(c, t, a), t, b) == fed_routed(c, t, join(a, b)),
{
    if a is Some && b is Some {
        let u = a->0;
        let v = b->0;
        assert(u.bytes + ending(false) =~= u.bytes);
        assert(u.bytes + (v.bytes + ending(v.last)) =~= (u.bytes + v.bytes) + ending(v.last));
        lemma_fed_bytes_concat(c, t, u.bytes, v.bytes + ending(v.last));
    }
}

/// As long as the chunks are not fed as the end of the stream, the end of
/// the stream is not shown.
proof fn lemma_route_all_open(p: Progress, chunks: Seq<Seq<u8>>)
    ensures
        route_all(p, chunks, false).shown is Some ==> !route_all(p, chunks, false).shown->0.last,
    decreases chunks.len(),
{
    if chunks.len() > 0 {
        lemma_route_all_open(p, chunks.drop_last());
    }
}

/// Chunk invariance of the single-byte candidates: however a stream is cut
/// into chunks, a single-byte candidate ends in the state and with the score
/// that feeding the stream in one piece gives it.
pub proof fn lemma_chunk_invariance(
    c: CandidateState,
    t: TableView,
    p: Progress,
    chunks: Seq<Seq<u8>>,
    last: bool,
)
    requires
        chunks.len() > 0,
    ensures
        fed_all(c, t, p, chunks, last) == fed_routed(
            c,
            t,
            route(p, flatten(chunks), last).shown,
        ),
{
    lemma_fed_all(c, t, p, chunks, last);
    lemma_chunk_invariance_of_routing(p, chunks, last);
    let cut = route_all(p, chunks, last).shown;
    let whole = route(p, flatten(chunks), last).shown;
    assert(fed_routed(c, t, cut) == fed_routed(c, t, whole));
}

/// A candidate that is fed chunk by chunk has been shown what the detector
/// has shown in all.
proof fn lemma_fed_all(
    c: CandidateState,
    t: TableView,
    p: Progress,
    chunks: Seq<Seq<u8>>,
    last: bool,
)
    ensures
        fed_all(c, t, p, chunks, last) == fed_routed(c, t, route_all(p, chunks, last).shown),
    decreases chunks.len(),
{
    if chunks.len() > 0 {
        let front = chunks.drop_last();
        lemma_fed_all(c, t, p, front, false);
        lemma_route_all_open(p, front);
        let before = route_all(p, front, false);
        lemma_fed_routed_join(
            c,
            t,
            before.shown,
            route(before.progress, chunks.last(), last).shown,
        );
    }
}

/// But for the decoder of UTF-8, it makes no difference to a candidate
/// whether a byte that was held back is handed to it by itself.
proof fn lemma_shown_either_way(before: Candidate, after: Candidate, x: Shown, y: Shown)
    requires
        !(before@.inner is Utf8),
        x.bytes == y.bytes,
        x.last == y.last,
        shown(before, after, x),
    ensures
        shown(before, after, y),
{
}

/// The detector `after` stands as `first` would after being fed `bytes` in
/// one piece, as the end of the stream if `last` is set. It has come to the
/// same point of the stream, and every candidate but that for UTF-8 has been
/// shown the same, so that each single-byte candidate and each decoding
/// candidate is in the same state with the same score. The decoder of UTF-8
/// is handed whole buffers, and nothing is known of what it reports when
/// they are cut differently.
pub open spec fn stands_as(
    first: EncodingDetector,
    after: EncodingDetector,
    bytes: Seq<u8>,
    last: bool,
) -> bool {
    &&& same_progress(after@.progress, route(first@.progress, bytes, last).progress)
    &&& match route(first@.progress, bytes, last).shown {
        Some(what) => forall|i: int|
            0 <= i < CANDIDATE_COUNT && !(first.candidate(i)@.inner is Utf8) ==> shown(
                first.candidate(i),
                #[trigger] after.candidate(i),
                what,
            ),
        None => forall|i: int|
            0 <= i < CANDIDATE_COUNT ==> #[trigger] after.candidate(i) == first.candidate(i),
    }
    &&& after.closed() == (last && route(first@.progress, bytes, last).shown is Some)
}

/// A detector that has been fed a buffer stands as one that has been fed it.
pub proof fn lemma_fed_stands(
    first: EncodingDetector,
    after: EncodingDetector,
    bytes: Seq<u8>,
    last: bool,
)
    requires
        first.fed(after, bytes, last),
    ensures
        stands_as(first, after, bytes, last),
{
}

/// Chunk invariance of the detector, chunk by chunk: a detector that stands
/// as if fed `a`, and is then fed `b`, stands as if fed their concatenation.
/// Either of the two may be empty.
pub proof fn lemma_stands_in_chunks(
    first: EncodingDetector,
    second: EncodingDetector,
    third: EncodingDetector,
    a: Seq<u8>,
    b: Seq<u8>,
    last: bool,
)
    requires
        stands_as(first, second, a, false),
        second.fed(third, b, last),
    ensures
        stands_as(first, third, a + b, last),
{
    let p = first@.progress;
    let one = route(p, a, false);
    let two = route(one.progress, b, last);
    let fed = route(second@.progress, b, last);
    let whole = route(p, a + b, last);
    lemma_route_respects(second@.progress, one.progress, b, last);
    lemma_route_concat(p, a, b, last);
    if one.shown is Some {
        if holding_back(one.progress) {
            lemma_holding_back_shows_nothing(p, a, false);
        }
        let u = one.shown->0;
        let v = fed.shown->0;
        assert forall|i: int|
            0 <= i < CANDIDATE_COUNT && !(first.candidate(i)@.inner is Utf8) implies shown(
            first.candidate(i),
            #[trigger] third.candidate(i),
            whole.shown->0,
        ) by {
            assert(shown(first.candidate(i), second.candidate(i), u));
            assert(shown(second.candidate(i), third.candidate(i), v));
            lemma_shown_concat(
                first.candidate(i),
                second.candidate(i),
                third.candidate(i),
                u,
                v,
                u.replayed,
            );
            lemma_shown_either_way(
                first.candidate(i),
                third.candidate(i),
                Shown { bytes: u.bytes + v.bytes, last: v.last, replayed: u.replayed },
                whole.shown->0,
            );
        }
    } else {
        assert forall|i: int| 0 <= i < CANDIDATE_COUNT implies #[trigger] second.candidate(i)
            == first.candidate(i) by {}
        if whole.shown is Some {
            assert forall|i: int|
                0 <= i < CANDIDATE_COUNT && !(first.candidate(i)@.inner is Utf8) implies shown(
                first.candidate(i),
                #[trigger] third.candidate(i),
                whole.shown->0,
            ) by {
                assert(second.candidate(i) == first.candidate(i));
                assert(shown(second.candidate(i), third.candidate(i), fed.shown->0));
                lemma_shown_either_way(
                    first.candidate(i),
                    third.candidate(i),
                    fed.shown->0,
                    whole.shown->0,
                );
            }
        } else {
            assert forall|i: int| 0 <= i < CANDIDATE_COUNT implies #[trigger] third.candidate(i)
                == first.candidate(i) by {
                assert(second.candidate(i) == first.candidate(i));
            }
        }
    }
}

/// Chunk invariance of the detector: however a stream is cut into chunks,
/// empty ones among them, a detector that is fed the chunks one after the
/// other, the last of them as the end of the stream if `last` is set,
/// stands as one that is fed the stream in one piece. `detectors` holds the
/// detector before the first chunk and after each chunk.
pub proof fn lemma_partition(
    detectors: Seq<EncodingDetector>,
    chunks: Seq<Seq<u8>>,
    last: bool,
)
    requires
        chunks.len() > 0,
        detectors.len() == chunks.len() + 1,
        forall|k: int|
            0 <= k < chunks.len() ==> (#[trigger] detectors[k]).fed(
                detectors[k + 1],
                chunks[k],
                last && k == chunks.len() - 1,
            ),
    ensures
        stands_as(detectors[0], detectors[chunks.len() as int], flatten(chunks), last),
    decreases chunks.len(),
{
    let n = chunks.len() as int;
    let front = chunks.drop_last();
    assert(detectors[n - 1].fed(detectors[n], chunks[n - 1], last));
    if n == 1 {
        assert(flatten(front) =~= Seq::<u8>::empty());
        assert(flatten(chunks) =~= chunks[0]);
        lemma_fed_stands(detectors[0], detectors[1], chunks[0], last);
    } else {
        let before = detectors.drop_last();
        assert forall|k: int| 0 <= k < front.len() implies (#[trigger] before[k]).fed(
            before[k + 1],
            front[k],
            false && k == front.len() - 1,
        ) by {
            assert(detectors[k].fed(detectors[k + 1], chunks[k], last && k == n - 1));
        }
        lemma_partition(before, front, false);
        lemma_stands_in_chunks(
            detectors[0],
            detectors[n - 1],
            detectors[n],
            flatten(front),
            chunks[n - 1],
            last,
        );
    }
}

/// The leader of the race goes by the candidates in the race alone.
proof fn lemma_best_upto_same(x: Seq<CandidateState>, y: Seq<CandidateState>, n: int)
    requires
        forall|i: int| FIRST_NORMAL <= i < n ==> x[i] == y[i],
    ensures
        best_upto(x, n) == best_upto(y, n),
    decreases n,
{
    if n > FIRST_NORMAL {
        lemma_best_upto_same(x, y, n - 1);
    }
}

/// The answer does not go by the chunks. Two detectors that stand as the
/// same detector would after the same stream answer with the same encoding,
/// if UTF-8 is not allowed, or if their candidates for UTF-8 agree in being
/// in the race or out of it.
pub proof fn lemma_same_verdict(
    first: EncodingDetector,
    x: EncodingDetector,
    y: EncodingDetector,
    bytes: Seq<u8>,
    last: bool,
    allow_utf8: bool,
)
    requires
        first.wf(),
        stands_as(first, x, bytes, last),
        stands_as(first, y, bytes, last),
        allow_utf8 ==> (x@.candidates[UTF_8_INDEX as int].score is Some
            <==> y@.candidates[UTF_8_INDEX as int].score is Some),
    ensures
        verdict(x@, allow_utf8) == verdict(y@, allow_utf8),
{
    x.lemma_view();
    y.lemma_view();
    first.lemma_view();
    assert forall|i: int| 1 <= i < CANDIDATE_COUNT implies #[trigger] x@.candidates[i]
        == y@.candidates[i] by {
        let c = first.candidate(i);
        assert(c.id() == encoding_at(i));
        assert(!(c@.inner is Utf8));
        assert(x@.candidates[i] == x.candidate(i)@);
        assert(y@.candidates[i] == y.candidate(i)@);
    }
    lemma_best_upto_same(x@.candidates, y@.candidates, CANDIDATE_COUNT as int);
}

/// UTF-8 is answered exactly when its decoder accepts: a detector whose
/// candidate for UTF-8 is in the race, and which is fed a buffer that holds
/// a byte outside ASCII, answers UTF-8, where that is allowed, if and only
/// if the decoder of UTF-8 accepted what it was shown.
pub proof fn lemma_utf8_verdict(
    before: EncodingDetector,
    after: EncodingDetector,
    buffer: Seq<u8>,
    last: bool,
)
    requires
        before.wf(),
        before.fed(after, buffer, last),
        before@.candidates[UTF_8_INDEX as int].score is Some,
        exists|j: int| 0 <= j < buffer.len() && #[trigger] buffer[j] >= 0x80,
    ensures
        route(before@.progress, buffer, last).shown is Some,
        verdict(after@, true) == EncodingId::Utf8 <==> utf8_shown(
            before.candidate(UTF_8_INDEX as int).decoder(),
            route(before@.progress, buffer, last).shown->0,
        ) is Some,
{
    before.lemma_view();
    after.lemma_view();
    lemma_non_ascii_is_counted(before@.progress, buffer, last);
    if holding_back(route(before@.progress, buffer, last).progress) {
        lemma_holding_back_shows_nothing(before@.progress, buffer, last);
    }
    let what = route(before@.progress, buffer, last).shown->0;
    assert(shown(
        before.candidate(UTF_8_INDEX as int),
        after.candidate(UTF_8_INDEX as int),
        what,
    ));
    assert(after@.candidates[UTF_8_INDEX as int] == after.candidate(UTF_8_INDEX as int)@);
    assert(before@.candidates[UTF_8_INDEX as int] == before.candidate(UTF_8_INDEX as int)@);
    lemma_best_upto(after@.candidates, CANDIDATE_COUNT as int);
}

} // verus!
