//! What the candidates for Chinese, Japanese and Korean encodings share:
//! the scores, the classes of decoded code units, and the bonus for frequent
//! characters.

use crate::outside::{decode_next, decode_report, DecodeStatus, Decoded};
use crate::scan::{lemma_run_rejected, run, Step};
use vstd::prelude::*;

verus! {

/// Score of a common ideograph or syllable.
pub const CJK_BASE_SCORE: i64 = 41;

/// Score of a less common ideograph.
pub const CJK_SECONDARY_BASE_SCORE: i64 = 20;

/// Penalty for an ASCII letter directly beside an ideograph, a kana or a
/// syllable; smaller than the penalty the single-byte candidates apply.
pub const CJK_LATIN_ADJACENCY_PENALTY: i64 = -40;

/// Score of punctuation that is distinctive of Chinese or Japanese text:
/// half the base score.
pub const CJ_PUNCTUATION: i64 = 20;

/// Score of any other non-ASCII character: a quarter of the secondary base
/// score.
pub const CJK_OTHER: i64 = 5;

/// Penalty for a half-width katakana.
pub const HALF_WIDTH_KATAKANA_PENALTY: i64 = -(CJK_BASE_SCORE * 3);

/// The class of the character a Chinese or Japanese candidate saw last.
#[derive(Clone, Copy, Debug, PartialEq, Eq, Structural)]
pub enum LatinCj {
    AsciiLetter,
    Cj,
    Other,
}

/// The class of the character the Korean candidate saw last.
#[derive(Clone, Copy, Debug, PartialEq, Eq, Structural)]
pub enum LatinKorean {
    AsciiLetter,
    Hangul,
    Hanja,
    Other,
}

/// One input of a decoding candidate: a byte of the stream, and what the
/// decoder reported when it was given that byte.
pub struct Unit {
    pub byte: u8,
    pub decoded: Decoded,
}

/// The outcome of a feed once the end of the stream has been signalled, if it
/// has: a decoder that then reports anything but the end of its input
/// rejects the stream.
pub open spec fn close<S>(out: (S, Option<int>), last: bool, end: DecodeStatus) -> (
    S,
    Option<int>,
) {
    if last && out.1 is Some && end != DecodeStatus::InputEmpty {
        (out.0, None)
    } else {
        out
    }
}

/// The state of a decoder that started in the state `decoder` and has been
/// given `bytes` one at a time.
pub open spec fn decoder_after(decoder: encoding_rs::Decoder, bytes: Seq<u8>)
    -> encoding_rs::Decoder
    decreases bytes.len(),
{
    if bytes.len() == 0 {
        decoder
    } else {
        decode_next(decoder_after(decoder, bytes.drop_last()), seq![bytes.last()], false)
    }
}

/// Each byte of `bytes` with what a decoder that started in the state
/// `decoder` reports when it is given that byte after those before it.
pub open spec fn reports(decoder: encoding_rs::Decoder, bytes: Seq<u8>) -> Seq<Unit>
    decreases bytes.len(),
{
    if bytes.len() == 0 {
        Seq::empty()
    } else {
        reports(decoder, bytes.drop_last()).push(
            Unit {
                byte: bytes.last(),
                decoded: decode_report(
                    decoder_after(decoder, bytes.drop_last()),
                    seq![bytes.last()],
                    false,
                ),
            },
        )
    }
}

/// How the decoder ends when it is told, after `bytes`, that the stream has
/// ended.
pub open spec fn end_status(decoder: encoding_rs::Decoder, bytes: Seq<u8>) -> DecodeStatus {
    decode_report(decoder_after(decoder, bytes), Seq::empty(), true).status
}

/// The state of the decoder after `bytes` and, if `last` is set, after the
/// end of the stream.
pub open spec fn decoder_end(decoder: encoding_rs::Decoder, bytes: Seq<u8>, last: bool)
    -> encoding_rs::Decoder {
    if last {
        decode_next(decoder_after(decoder, bytes), Seq::empty(), true)
    } else {
        decoder_after(decoder, bytes)
    }
}

/// The state and the score of a candidate with the step `step` and a decoder
/// in the state `decoder` after it is fed `bytes`, as the end of the stream
/// if `last` is set: the fold of the step over the bytes with the decoder's
/// reports, closed by the decoder's report on the end.
pub open spec fn decoded<S>(
    step: Step<S, Unit>,
    s: S,
    decoder: encoding_rs::Decoder,
    bytes: Seq<u8>,
    last: bool,
) -> (S, Option<int>) {
    close(run(step, s, reports(decoder, bytes)), last, end_status(decoder, bytes))
}

/// A decoder that is given `a` and then `b` is in the state of one that is
/// given their concatenation, and has reported the same.
pub proof fn lemma_reports_concat(decoder: encoding_rs::Decoder, a: Seq<u8>, b: Seq<u8>)
    ensures
        decoder_after(decoder, a + b) == decoder_after(decoder_after(decoder, a), b),
        reports(decoder, a + b) == reports(decoder, a) + reports(decoder_after(decoder, a), b),
    decreases b.len(),
{
    if b.len() == 0 {
        assert(a + b =~= a);
        assert(reports(decoder, a) + Seq::<Unit>::empty() =~= reports(decoder, a));
    } else {
        assert((a + b).drop_last() =~= a + b.drop_last());
        assert((a + b).last() == b.last());
        lemma_reports_concat(decoder, a, b.drop_last());
        let middle = decoder_after(decoder, a);
        assert(reports(decoder, a + b) =~= reports(decoder, a) + reports(middle, b));
    }
}

/// A rejection among the first `k` bytes decides the whole buffer.
pub proof fn lemma_rejected_early<S>(
    step: Step<S, Unit>,
    s: S,
    decoder: encoding_rs::Decoder,
    bytes: Seq<u8>,
    k: int,
    last: bool,
)
    requires
        0 <= k <= bytes.len(),
        run(step, s, reports(decoder, bytes.take(k))).1 is None,
    ensures
        decoded(step, s, decoder, bytes, last) == run(step, s, reports(decoder, bytes.take(k))),
{
    assert(bytes =~= bytes.take(k) + bytes.skip(k));
    lemma_reports_concat(decoder, bytes.take(k), bytes.skip(k));
    lemma_run_rejected(
        step,
        s,
        reports(decoder, bytes.take(k)),
        reports(decoder_after(decoder, bytes.take(k)), bytes.skip(k)),
    );
}

/// `a` to `z` and `A` to `Z`.
pub open spec fn is_ascii_letter(u: u16) -> bool {
    (0x61 <= u <= 0x7A) || (0x41 <= u <= 0x5A)
}

/// The unified ideographs with their extension A, and the compatibility
/// ideographs.
pub open spec fn is_ideograph(u: u16) -> bool {
    (0x3400 <= u < 0xA000) || (0xF900 <= u < 0xFB00)
}

/// The private use area of the basic plane.
pub open spec fn is_private_use(u: u16) -> bool {
    0xE000 <= u < 0xF900
}

/// The half-width katakana.
pub open spec fn is_half_width_katakana(u: u16) -> bool {
    0xFF61 <= u <= 0xFF9F
}

/// Ideographic space, comma and full stop, and the full-width parentheses.
pub open spec fn is_cj_punctuation(u: u16) -> bool {
    u == 0x3000 || u == 0x3001 || u == 0x3002 || u == 0xFF08 || u == 0xFF09
}

/// Full-width exclamation mark, comma, semicolon and question mark, which
/// Chinese text uses and Japanese text does not.
pub open spec fn is_chinese_punctuation(u: u16) -> bool {
    u == 0xFF01 || u == 0xFF0C || u == 0xFF1B || u == 0xFF1F
}

/// The score of a code unit that is neither a letter nor an ideograph:
/// distinctive punctuation scores, ASCII does not, anything else scores a
/// little. `chinese` says whether the Chinese punctuation counts as
/// distinctive.
pub open spec fn other_score(u: u16, chinese: bool) -> int {
    if is_cj_punctuation(u) || (chinese && is_chinese_punctuation(u)) {
        CJ_PUNCTUATION as int
    } else if u <= 0x7F {
        0
    } else {
        CJK_OTHER as int
    }
}

/// The penalty for a character of the script right after an ASCII letter.
pub open spec fn after_letter(prev: LatinCj) -> int {
    if prev == LatinCj::AsciiLetter {
        CJK_LATIN_ADJACENCY_PENALTY as int
    } else {
        0
    }
}

/// The penalty for an ASCII letter right after a character of the script.
pub open spec fn after_cj(prev: LatinCj) -> int {
    if prev == LatinCj::Cj {
        CJK_LATIN_ADJACENCY_PENALTY as int
    } else {
        0
    }
}

/// Index of the first occurrence of `u` in `table` at or after `from`, or the
/// length of the table when there is none.
pub open spec fn first_index_from(table: Seq<u16>, u: u16, from: int) -> int
    decreases table.len() - from,
{
    if from < 0 || from >= table.len() {
        table.len() as int
    } else if table[from] == u {
        from
    } else {
        first_index_from(table, u, from + 1)
    }
}

/// The bonus for a character that stands in a table of the 128 most frequent
/// ones, most frequent first: eight for the first sixteen, one less for each
/// further sixteen, nothing for a character that is not in the table.
pub open spec fn extra_score(u: u16, table: Seq<u16>) -> int {
    let pos = first_index_from(table, u, 0);
    if pos < table.len() {
        (128 - pos) / 16
    } else {
        0
    }
}

/// What `first_index_from` returns is the first occurrence at or after
/// `from`.
pub proof fn lemma_first_index(table: Seq<u16>, u: u16, from: int)
    requires
        0 <= from <= table.len(),
    ensures
        from <= first_index_from(table, u, from) <= table.len(),
        first_index_from(table, u, from) < table.len() ==> table[first_index_from(table, u, from)]
            == u,
        forall|j: int| from <= j < first_index_from(table, u, from) ==> table[j] != u,
    decreases table.len() - from,
{
    if from < table.len() && table[from] != u {
        lemma_first_index(table, u, from + 1);
    }
}

/// The bonus goes by the first place of the character in the table.
pub proof fn lemma_extra_score(u: u16, table: Seq<u16>)
    requires
        table.len() == 128,
    ensures
        0 <= extra_score(u, table) <= 8,
        forall|pos: int|
            0 <= pos < 128 && #[trigger] table[pos] == u && (forall|j: int|
                0 <= j < pos ==> table[j] != u) ==> extra_score(u, table) == (128 - pos) / 16,
        (forall|j: int| 0 <= j < 128 ==> table[j] != u) ==> extra_score(u, table) == 0,
{
    lemma_first_index(table, u, 0);
    let first = first_index_from(table, u, 0);
    assert forall|pos: int|
        0 <= pos < 128 && #[trigger] table[pos] == u && (forall|j: int|
            0 <= j < pos ==> table[j] != u) implies extra_score(u, table) == (128 - pos)
        / 16 by {
        if first < pos {
            assert(table[first] != u);
        }
    }
}

/// Computes the bonus of `u` from its place in `table`: with the first
/// occurrence of `u` at `pos`, an eighth of how far `pos` is from the end,
/// sixteen places to the point; and nothing if `u` does not occur.
pub fn cjk_extra_score(u: u16, table: &'static [u16; 128]) -> (r: i64)
    ensures
        r == extra_score(u, table@),
        0 <= r <= 8,
        forall|pos: int|
            0 <= pos < 128 && #[trigger] table@[pos] == u && (forall|j: int|
                0 <= j < pos ==> table@[j] != u) ==> r == (128 - pos) / 16,
        (forall|j: int| 0 <= j < 128 ==> table@[j] != u) ==> r == 0,
{
    proof {
        lemma_extra_score(u, table@);
    }
    let mut pos: usize = 0;
    while pos < 128
        invariant
            0 <= pos <= 128,
            table@.len() == 128,
            first_index_from(table@, u, 0) == first_index_from(table@, u, pos as int),
            forall|at: int|
                0 <= at < 128 && #[trigger] table@[at] == u && (forall|j: int|
                    0 <= j < at ==> table@[j] != u) ==> extra_score(u, table@) == (128 - at) / 16,
            (forall|j: int| 0 <= j < 128 ==> table@[j] != u) ==> extra_score(u, table@) == 0,
        decreases 128 - pos,
    {
        if table[pos] == u {
            return ((128 - pos) / 16) as i64;
        }
        pos += 1;
    }
    0
}

/// Whether a lead byte of Shift_JIS is one that windows-1252 text often
/// holds: `0x92` is the right single quotation mark there.
pub fn problematic_lead(b: u8) -> (r: bool)
    ensures
        r == (b == 0x92),
{
    b == 0x92
}

} // verus!
