//! The calls this library makes into `encoding_rs` and `memchr`.
//!
//! Everything stated in this module is taken on trust from the source and the
//! documentation of the called functions; none of it is proved.

use crate::encoding::MultiByte;
use vstd::prelude::*;

verus! {

/// `encoding_rs::Decoder`: an incremental decoder whose state is opaque here.
#[verifier::external_type_specification]
#[verifier::external_body]
pub struct ExDecoder(encoding_rs::Decoder);

/// How a call of a decoder ended.
#[derive(Clone, Copy, Debug, PartialEq, Eq, Structural)]
pub enum DecodeStatus {
    /// All input given was consumed.
    InputEmpty,
    /// The output buffer could not take another unit.
    OutputFull,
    /// The input held a sequence that the encoding does not allow.
    Malformed,
}

/// What one call of a decoder into UTF-16 reported.
#[derive(Clone, Copy, Debug, PartialEq, Eq, Structural)]
pub struct Decoded {
    pub status: DecodeStatus,
    /// Number of UTF-16 code units written.
    pub written: usize,
    /// The first code unit of the output buffer.
    pub first: u16,
}

/// What one call of a decoder into UTF-8 reported.
#[derive(Clone, Copy, Debug, PartialEq, Eq, Structural)]
pub struct Consumed {
    pub status: DecodeStatus,
    /// Number of input bytes consumed.
    pub read: usize,
}

/// Whether the decoder has come to the end of its stream. A decoder in that
/// state must not be called again.
pub uninterp spec fn decoder_finished(decoder: encoding_rs::Decoder) -> bool;

/// What a decoder in the state `decoder` reports when it is given `src`, as
/// the last of its input if `last` is set, and two code units of UTF-16 to
/// write to. A decoder works by its state and its input alone.
pub uninterp spec fn decode_report(decoder: encoding_rs::Decoder, src: Seq<u8>, last: bool)
    -> Decoded;

/// The state that call leaves the decoder in.
pub uninterp spec fn decode_next(decoder: encoding_rs::Decoder, src: Seq<u8>, last: bool)
    -> encoding_rs::Decoder;

/// What a decoder in the state `decoder` reports when it is given `src`, as
/// the last of its input if `last` is set, and 1024 bytes of UTF-8 to write
/// to.
pub uninterp spec fn decode_utf8_report(decoder: encoding_rs::Decoder, src: Seq<u8>, last: bool)
    -> Consumed;

/// The state that call leaves the decoder in.
pub uninterp spec fn decode_utf8_next(decoder: encoding_rs::Decoder, src: Seq<u8>, last: bool)
    -> encoding_rs::Decoder;

/// `memchr::memchr` returns the index of the first occurrence of `needle` in
/// `haystack`, or `None` when the byte does not occur.
pub assume_specification[ memchr::memchr ](needle: u8, haystack: &[u8]) -> (r: Option<usize>)
    ensures
        match r {
            Some(i) => i < haystack@.len() && haystack@[i as int] == needle && forall|j: int|
                0 <= j < i ==> haystack@[j] != needle,
            None => forall|j: int| 0 <= j < haystack@.len() ==> haystack@[j] != needle,
        },
;

/// `encoding_rs::Encoding::ascii_valid_up_to` returns the index of the first
/// byte that is not ASCII, or the length of the slice when every byte is.
pub assume_specification[ encoding_rs::Encoding::ascii_valid_up_to ](bytes: &[u8]) -> (r: usize)
    ensures
        r <= bytes@.len(),
        forall|j: int| 0 <= j < r ==> bytes@[j] < 0x80,
        r < bytes@.len() ==> bytes@[r as int] >= 0x80,
;

/// Calls `encoding_rs::Encoding::new_decoder_without_bom_handling` on the
/// encoding that `which` stands for. The decoder it returns is at the start of
/// a stream, so it has not finished.
#[verifier::external_body]
pub(crate) fn new_decoder(which: MultiByte) -> (r: encoding_rs::Decoder)
    ensures
        !decoder_finished(r),
{
    let encoding = match which {
        MultiByte::Utf8 => encoding_rs::UTF_8,
        MultiByte::ShiftJis => encoding_rs::SHIFT_JIS,
        MultiByte::EucJp => encoding_rs::EUC_JP,
        MultiByte::EucKr => encoding_rs::EUC_KR,
        MultiByte::Big5 => encoding_rs::BIG5,
        MultiByte::Gbk => encoding_rs::GBK,
    };
    encoding.new_decoder_without_bom_handling()
}

/// Calls `encoding_rs::Decoder::decode_to_utf16_without_replacement` with an
/// output buffer of two code units. The call panics on a finished decoder,
/// which the precondition rules out. What it reports and the state it
/// leaves the decoder in go by the decoder and the input alone. It writes no
/// more than the buffer holds; a decoder finishes only when it is told that
/// the input is the last and has consumed all of it.
#[verifier::external_body]
pub(crate) fn decode_to_utf16(decoder: &mut encoding_rs::Decoder, src: &[u8], last: bool) -> (r:
    Decoded)
    requires
        !decoder_finished(*old(decoder)),
    ensures
        r == decode_report(*old(decoder), src@, last),
        *final(decoder) == decode_next(*old(decoder), src@, last),
        r.written <= 2,
        decoder_finished(*final(decoder)) ==> last && r.status == DecodeStatus::InputEmpty,
{
    let mut dst = [0u16; 2];
    let (result, _, written) = decoder.decode_to_utf16_without_replacement(src, &mut dst, last);
    let status = match result {
        encoding_rs::DecoderResult::InputEmpty => DecodeStatus::InputEmpty,
        encoding_rs::DecoderResult::OutputFull => DecodeStatus::OutputFull,
        encoding_rs::DecoderResult::Malformed(_, _) => DecodeStatus::Malformed,
    };
    Decoded { status, written, first: dst[0] }
}

/// Calls `encoding_rs::Decoder::decode_to_utf8_without_replacement` with an
/// output buffer of 1024 bytes, and returns how the call ended and how many
/// input bytes it consumed. The call panics on a finished decoder, which the
/// precondition rules out. What it reports and the state it leaves the
/// decoder in go by the decoder and the input alone. It reads no more than
/// it is given; a decoder finishes only when it is told that the input is
/// the last and has consumed all of it.
#[verifier::external_body]
pub(crate) fn decode_to_utf8(decoder: &mut encoding_rs::Decoder, src: &[u8], last: bool) -> (r:
    Consumed)
    requires
        !decoder_finished(*old(decoder)),
    ensures
        r == decode_utf8_report(*old(decoder), src@, last),
        *final(decoder) == decode_utf8_next(*old(decoder), src@, last),
        r.read <= src@.len(),
        decoder_finished(*final(decoder)) ==> last && r.status == DecodeStatus::InputEmpty,
{
    let mut dst = [0u8; 1024];
    let (result, read, _) = decoder.decode_to_utf8_without_replacement(src, &mut dst, last);
    let status = match result {
        encoding_rs::DecoderResult::InputEmpty => DecodeStatus::InputEmpty,
        encoding_rs::DecoderResult::OutputFull => DecodeStatus::OutputFull,
        encoding_rs::DecoderResult::Malformed(_, _) => DecodeStatus::Malformed,
    };
    Consumed { status, read }
}

} // verus!
