//! Legacy character-encoding detection by parallel candidate scoring.
//!
//! An [`EncodingDetector`] is fed the bytes of a stream that is known not to
//! be labelled, and names the legacy encoding the stream is most plausibly
//! in. It does so by showing the bytes to one candidate per encoding, each of
//! which keeps a score and drops out on bytes that its encoding cannot hold,
//! and by arbitrating between the candidates that remain.
//!
//! The tables that the candidates score with are not part of this crate: the
//! caller supplies them as a [`DetectorData`].

pub mod arabic_french;
pub mod big5;
pub mod candidate;
pub mod caseless;
pub mod cjk;
pub mod data;
pub mod detector;
pub mod encoding;
pub mod euc_jp;
pub mod euc_kr;
pub mod gbk;
pub mod hebrew;
pub mod latin;
pub mod laws;
pub mod non_latin;
pub mod outside;
pub mod scan;
pub mod shift_jis;
pub mod utf8;
pub mod word;

pub use data::DetectorData;
pub use data::SingleByteData;
pub use detector::EncodingDetector;
pub use encoding::EncodingId;
