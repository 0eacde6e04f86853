//! The closed set of encodings the detector can answer with.

use vstd::prelude::*;

verus! {

/// One of the encodings a verdict can name.
#[allow(non_camel_case_types)]
#[derive(Clone, Copy, Debug, PartialEq, Eq, Structural, Hash)]
pub enum EncodingId {
    Utf8,
    ShiftJis,
    EucJp,
    EucKr,
    Big5,
    Gbk,
    Iso2022Jp,
    Windows1250,
    Windows1251,
    Windows1252,
    Windows1253,
    Windows1254,
    Windows1255,
    Windows1256,
    Windows1257,
    Windows1258,
    Windows874,
    Iso8859_2,
    Iso8859_4,
    Iso8859_5,
    Iso8859_6,
    Iso8859_7,
    Iso8859_8,
    Iso8859_13,
    Koi8U,
    Ibm866,
}

/// The encodings that are decoded incrementally while scoring.
#[derive(Clone, Copy, Debug, PartialEq, Eq, Structural)]
pub enum MultiByte {
    Utf8,
    ShiftJis,
    EucJp,
    EucKr,
    Big5,
    Gbk,
}

} // verus!
