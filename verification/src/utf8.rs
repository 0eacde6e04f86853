//! The candidate for UTF-8: it earns nothing and only watches for input
//! that is not UTF-8.

use crate::encoding::MultiByte;
use crate::outside::{
    decode_to_utf8, decode_utf8_next, decode_utf8_report, decoder_finished, new_decoder,
    DecodeStatus,
};
use crate::scan::as_int;
use vstd::prelude::*;
use vstd::slice::slice_subrange;

verus! {

/// What a call of the decoder on part of a buffer means for the buffer.
#[derive(Clone, Copy, Debug, PartialEq, Eq, Structural)]
pub enum ChunkVerdict {
    /// The decoder took all of the buffer: it is UTF-8 so far.
    Accepted,
    /// The buffer is not UTF-8.
    Rejected,
    /// The decoder ran out of room and wants the rest once more.
    Continue,
}

/// The verdict on a call that ended with `status` after the decoder consumed
/// `read` bytes. A decoder that wants more room without having consumed
/// anything can never be satisfied, and rejects.
pub open spec fn chunk_verdict(status: DecodeStatus, read: usize) -> ChunkVerdict {
    match status {
        DecodeStatus::InputEmpty => ChunkVerdict::Accepted,
        DecodeStatus::Malformed => ChunkVerdict::Rejected,
        DecodeStatus::OutputFull => if read == 0 {
            ChunkVerdict::Rejected
        } else {
            ChunkVerdict::Continue
        },
    }
}

/// The outcome of feeding `rest` to a decoder in the state `decoder`, as the
/// end of the stream if `last` is set: the decoder is given what it has not
/// consumed yet for as long as it asks for more room, and its first other
/// report decides. A score of zero means that it accepted.
pub open spec fn utf8_feed(decoder: encoding_rs::Decoder, rest: Seq<u8>, last: bool) -> Option<
    int,
>
    decreases rest.len(),
{
    let report = decode_utf8_report(decoder, rest, last);
    match chunk_verdict(report.status, report.read) {
        ChunkVerdict::Accepted => Some(0int),
        ChunkVerdict::Rejected => None,
        ChunkVerdict::Continue => if 0 < report.read <= rest.len() {
            utf8_feed(decode_utf8_next(decoder, rest, last), rest.skip(report.read as int), last)
        } else {
            None
        },
    }
}

/// The state of the decoder after that.
pub open spec fn utf8_after(decoder: encoding_rs::Decoder, rest: Seq<u8>, last: bool)
    -> encoding_rs::Decoder
    decreases rest.len(),
{
    let report = decode_utf8_report(decoder, rest, last);
    let next = decode_utf8_next(decoder, rest, last);
    if chunk_verdict(report.status, report.read) == ChunkVerdict::Continue && 0 < report.read
        <= rest.len() {
        utf8_after(next, rest.skip(report.read as int), last)
    } else {
        next
    }
}

/// A state machine that is disqualified by the first malformed sequence.
pub struct Utf8Candidate {
    decoder: encoding_rs::Decoder,
}

impl Utf8Candidate {
    /// The state of the decoder.
    pub closed spec fn decoder(&self) -> encoding_rs::Decoder {
        self.decoder
    }

    /// Whether the decoder has been closed at the end of a stream.
    pub closed spec fn finished(&self) -> bool {
        decoder_finished(self.decoder)
    }

    /// A candidate at the start of a stream.
    pub fn new() -> (r: Self)
        ensures
            !r.finished(),
    {
        Utf8Candidate { decoder: new_decoder(MultiByte::Utf8) }
    }

    /// Computes [`chunk_verdict`].
    pub fn verdict(status: DecodeStatus, read: usize) -> (r: ChunkVerdict)
        ensures
            r == chunk_verdict(status, read),
    {
        match status {
            DecodeStatus::InputEmpty => ChunkVerdict::Accepted,
            DecodeStatus::Malformed => ChunkVerdict::Rejected,
            DecodeStatus::OutputFull => {
                if read == 0 {
                    ChunkVerdict::Rejected
                } else {
                    ChunkVerdict::Continue
                }
            },
        }
    }

    /// Shows `buffer` to the decoder, and closes it if `last` is set.
    /// Returns a score of zero if the decoder accepts the buffer, and `None`
    /// if it reports a malformed sequence.
    pub fn feed(&mut self, buffer: &[u8], last: bool) -> (r: Option<i64>)
        requires
            !old(self).finished(),
        ensures
            as_int(r) == utf8_feed(old(self).decoder(), buffer@, last),
            r is None || r == Some(0i64),
            final(self).decoder() == utf8_after(old(self).decoder(), buffer@, last),
            !last ==> !final(self).finished(),
    {
        let ghost first = self.decoder();
        let ghost bytes = buffer@;
        proof {
            assert(bytes.subrange(0, bytes.len() as int) =~= bytes);
        }
        let mut total_read: usize = 0;
        loop
            invariant
                0 <= total_read <= buffer.len(),
                bytes == buffer@,
                first == old(self).decoder(),
                !self.finished(),
                utf8_feed(first, bytes, last) == utf8_feed(
                    self.decoder(),
                    bytes.subrange(total_read as int, bytes.len() as int),
                    last,
                ),
                utf8_after(first, bytes, last) == utf8_after(
                    self.decoder(),
                    bytes.subrange(total_read as int, bytes.len() as int),
                    last,
                ),
            decreases buffer.len() - total_read,
        {
            let ghost rest = bytes.subrange(total_read as int, bytes.len() as int);
            let ghost before = self.decoder();
            let report = decode_to_utf8(
                &mut self.decoder,
                slice_subrange(buffer, total_read, buffer.len()),
                last,
            );
            let status = report.status;
            let read = report.read;
            proof {
                assert(report == decode_utf8_report(before, rest, last));
                assert(self.decoder() == decode_utf8_next(before, rest, last));
                assert(rest.skip(read as int) =~= bytes.subrange(
                    total_read + read,
                    bytes.len() as int,
                ));
            }
            match Self::verdict(status, read) {
                ChunkVerdict::Accepted => {
                    return Some(0);
                },
                ChunkVerdict::Rejected => {
                    return None;
                },
                ChunkVerdict::Continue => {
                    total_read += read;
                },
            }
        }
    }
}

} // verus!
