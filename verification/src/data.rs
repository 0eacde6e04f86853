//! Per-encoding byte classification and bigram score tables.
//!
//! A class byte carries a caseless class id in its low seven bits and an
//! upper-case flag in its high bit. The tables are supplied by the caller and
//! are immutable once built.

use crate::encoding::EncodingId;
use vstd::prelude::*;

verus! {

/// Class byte of a byte the encoding cannot represent.
pub const INVALID_CLASS: u8 = 0xFF;

/// Caseless class shared by all Latin letters.
pub const LATIN_LETTER: u8 = 2;

/// Caseless class of ASCII punctuation, used by the Hebrew candidates.
pub const ASCII_PUNCTUATION: u8 = 3;

/// The mathematical content of a [`SingleByteData`].
pub struct TableView {
    pub encoding: EncodingId,
    pub classes: Seq<u8>,
    pub latin: Seq<bool>,
    pub non_latin: Seq<bool>,
    pub scores: Seq<i16>,
}

impl TableView {
    /// The four tables have the lengths that indexing by byte and by caseless
    /// class needs.
    pub open spec fn wf(self) -> bool {
        &&& self.classes.len() == 256
        &&& self.latin.len() == 128
        &&& self.non_latin.len() == 128
        &&& self.scores.len() == 128 * 128
    }

    /// Class byte of `b`.
    pub open spec fn classify(self, b: u8) -> u8 {
        self.classes[b as int]
    }

    /// Bigram plausibility of `current` following `previous`; classes outside
    /// the table score nothing.
    pub open spec fn score(self, current: u8, previous: u8) -> int {
        if current < 128 && previous < 128 {
            self.scores[current * 128 + previous] as int
        } else {
            0
        }
    }

    /// Whether the caseless class is a letter of the Latin alphabet.
    pub open spec fn is_latin_alphabetic(self, caseless_class: u8) -> bool {
        caseless_class < 128 && self.latin[caseless_class as int]
    }

    /// Whether the caseless class is a letter of another alphabet.
    pub open spec fn is_non_latin_alphabetic(self, caseless_class: u8) -> bool {
        caseless_class < 128 && self.non_latin[caseless_class as int]
    }
}

/// The caseless class of a class byte: its low seven bits.
pub open spec fn caseless(class: u8) -> u8 {
    class & 0x7F
}

/// Whether the class byte carries the upper-case flag.
pub open spec fn is_upper(class: u8) -> bool {
    class >= 0x80
}

/// The tables of one single-byte encoding.
pub struct SingleByteData {
    encoding: EncodingId,
    classes: Vec<u8>,
    latin: Vec<bool>,
    non_latin: Vec<bool>,
    scores: Vec<i16>,
}

impl View for SingleByteData {
    type V = TableView;

    closed spec fn view(&self) -> TableView {
        TableView {
            encoding: self.encoding,
            classes: self.classes@,
            latin: self.latin@,
            non_latin: self.non_latin@,
            scores: self.scores@,
        }
    }
}

impl SingleByteData {
    /// The tables have their full lengths.
    pub open spec fn wf(&self) -> bool {
        self@.wf()
    }

    /// Builds the tables of `encoding`: `classes` gives the class byte of each
    /// of the 256 bytes, `latin` and `non_latin` say of each of the 128
    /// caseless classes whether it is a letter, and `scores` holds the bigram
    /// score of each pair at `current * 128 + previous`. Tables of any other
    /// length are refused.
    pub fn new(
        encoding: EncodingId,
        classes: Vec<u8>,
        latin: Vec<bool>,
        non_latin: Vec<bool>,
        scores: Vec<i16>,
    ) -> (r: Option<SingleByteData>)
        ensures
            r is Some <==> (TableView {
                encoding,
                classes: classes@,
                latin: latin@,
                non_latin: non_latin@,
                scores: scores@,
            }).wf(),
            r is Some ==> r->0@ == (TableView {
                encoding,
                classes: classes@,
                latin: latin@,
                non_latin: non_latin@,
                scores: scores@,
            }),
    {
        if classes.len() == 256 && latin.len() == 128 && non_latin.len() == 128 && scores.len()
            == 128 * 128 {
            Some(SingleByteData { encoding, classes, latin, non_latin, scores })
        } else {
            None
        }
    }

    /// Whether the tables have their full lengths.
    pub fn is_complete(&self) -> (r: bool)
        ensures
            r == self.wf(),
    {
        self.classes.len() == 256 && self.latin.len() == 128 && self.non_latin.len() == 128
            && self.scores.len() == 128 * 128
    }

    /// The encoding these tables describe.
    pub fn encoding(&self) -> (r: EncodingId)
        ensures
            r == self@.encoding,
    {
        self.encoding
    }

    /// Class byte of `b`, or [`INVALID_CLASS`] where the encoding has no such
    /// byte.
    pub fn classify(&self, b: u8) -> (r: u8)
        requires
            self.wf(),
        ensures
            r == self@.classify(b),
    {
        self.classes[b as usize]
    }

    /// Bigram plausibility of `current` following `previous`.
    pub fn score(&self, current: u8, previous: u8) -> (r: i64)
        requires
            self.wf(),
        ensures
            r == self@.score(current, previous),
            -0x8000 <= r < 0x8000,
    {
        if current < 128 && previous < 128 {
            let index: usize = current as usize * 128 + previous as usize;
            self.scores[index] as i64
        } else {
            0
        }
    }

    /// Whether the caseless class is a letter of the Latin alphabet.
    pub fn is_latin_alphabetic(&self, caseless_class: u8) -> (r: bool)
        requires
            self.wf(),
        ensures
            r == self@.is_latin_alphabetic(caseless_class),
    {
        caseless_class < 128 && self.latin[caseless_class as usize]
    }

    /// Whether the caseless class is a letter of an alphabet other than Latin.
    pub fn is_non_latin_alphabetic(&self, caseless_class: u8) -> (r: bool)
        requires
            self.wf(),
        ensures
            r == self@.is_non_latin_alphabetic(caseless_class),
    {
        caseless_class < 128 && self.non_latin[caseless_class as usize]
    }
}

/// Number of single-byte tables a detector needs.
pub const TABLE_COUNT: usize = 20;

/// The encoding that the table at place `k` of a detector's tables must
/// describe. Windows-1252 stands twice: the second table is tuned to
/// Icelandic.
pub open spec fn table_encoding(k: int) -> EncodingId {
    if k == 0 {
        EncodingId::Iso8859_8
    } else if k == 1 {
        EncodingId::Windows1252
    } else if k == 2 {
        EncodingId::Windows1251
    } else if k == 3 {
        EncodingId::Windows1250
    } else if k == 4 {
        EncodingId::Iso8859_2
    } else if k == 5 {
        EncodingId::Windows1256
    } else if k == 6 {
        EncodingId::Windows1252
    } else if k == 7 {
        EncodingId::Windows1254
    } else if k == 8 {
        EncodingId::Windows874
    } else if k == 9 {
        EncodingId::Windows1255
    } else if k == 10 {
        EncodingId::Windows1253
    } else if k == 11 {
        EncodingId::Iso8859_7
    } else if k == 12 {
        EncodingId::Windows1257
    } else if k == 13 {
        EncodingId::Iso8859_13
    } else if k == 14 {
        EncodingId::Koi8U
    } else if k == 15 {
        EncodingId::Ibm866
    } else if k == 16 {
        EncodingId::Iso8859_6
    } else if k == 17 {
        EncodingId::Windows1258
    } else if k == 18 {
        EncodingId::Iso8859_4
    } else {
        EncodingId::Iso8859_5
    }
}

/// Computes [`table_encoding`].
pub fn expected_encoding(k: usize) -> (r: EncodingId)
    ensures
        r == table_encoding(k as int),
{
    match k {
        0 => EncodingId::Iso8859_8,
        1 => EncodingId::Windows1252,
        2 => EncodingId::Windows1251,
        3 => EncodingId::Windows1250,
        4 => EncodingId::Iso8859_2,
        5 => EncodingId::Windows1256,
        6 => EncodingId::Windows1252,
        7 => EncodingId::Windows1254,
        8 => EncodingId::Windows874,
        9 => EncodingId::Windows1255,
        10 => EncodingId::Windows1253,
        11 => EncodingId::Iso8859_7,
        12 => EncodingId::Windows1257,
        13 => EncodingId::Iso8859_13,
        14 => EncodingId::Koi8U,
        15 => EncodingId::Ibm866,
        16 => EncodingId::Iso8859_6,
        17 => EncodingId::Windows1258,
        18 => EncodingId::Iso8859_4,
        _ => EncodingId::Iso8859_5,
    }
}

/// Everything a detector reads: the tables of the single-byte encodings and
/// the three tables of frequent characters.
pub struct DetectorData {
    single_byte: Vec<SingleByteData>,
    frequent_simplified: [u16; 128],
    frequent_kanji: [u16; 128],
    frequent_hangul: [u16; 128],
}

/// The tables of the single-byte encodings are complete, and each stands at
/// the place of its encoding.
pub open spec fn tables_wf(tables: Seq<SingleByteData>) -> bool {
    &&& tables.len() == TABLE_COUNT
    &&& forall|k: int|
        0 <= k < tables.len() ==> (#[trigger] tables[k]).wf() && tables[k]@.encoding
            == table_encoding(k)
}

impl DetectorData {
    /// The tables of the single-byte encodings, in their places.
    pub closed spec fn tables(&self) -> Seq<SingleByteData> {
        self.single_byte@
    }

    /// The 128 most frequent simplified ideographs, most frequent first.
    pub closed spec fn simplified(&self) -> Seq<u16> {
        self.frequent_simplified@
    }

    /// The 128 most frequent kanji, most frequent first.
    pub closed spec fn kanji(&self) -> Seq<u16> {
        self.frequent_kanji@
    }

    /// The 128 most frequent hangul syllables, most frequent first.
    pub closed spec fn hangul(&self) -> Seq<u16> {
        self.frequent_hangul@
    }

    /// All tables are present and complete.
    pub open spec fn wf(&self) -> bool {
        tables_wf(self.tables())
    }

    /// Puts the tables of a detector together. Returns `None` unless there
    /// are twenty complete single-byte tables, each at the place of its
    /// encoding.
    pub fn new(
        single_byte: Vec<SingleByteData>,
        frequent_simplified: [u16; 128],
        frequent_kanji: [u16; 128],
        frequent_hangul: [u16; 128],
    ) -> (r: Option<DetectorData>)
        ensures
            r is Some <==> tables_wf(single_byte@),
            r is Some ==> r->0.wf() && r->0.tables() == single_byte@ && r->0.simplified()
                == frequent_simplified@ && r->0.kanji() == frequent_kanji@ && r->0.hangul()
                == frequent_hangul@,
    {
        if single_byte.len() != TABLE_COUNT {
            return None;
        }
        let mut k: usize = 0;
        while k < TABLE_COUNT
            invariant
                0 <= k <= TABLE_COUNT,
                single_byte@.len() == TABLE_COUNT,
                forall|j: int|
                    0 <= j < k ==> (#[trigger] single_byte@[j]).wf() && single_byte@[j]@.encoding
                        == table_encoding(j),
            decreases TABLE_COUNT - k,
        {
            let table = &single_byte[k];
            if !table.is_complete() || table.encoding() != expected_encoding(k) {
                return None;
            }
            k += 1;
        }
        Some(DetectorData { single_byte, frequent_simplified, frequent_kanji, frequent_hangul })
    }

    /// The single-byte table at place `k`.
    pub fn table(&'static self, k: usize) -> (r: &'static SingleByteData)
        requires
            self.wf(),
            k < TABLE_COUNT,
        ensures
            *r == self.tables()[k as int],
            r.wf(),
            r@.encoding == table_encoding(k as int),
    {
        &self.single_byte[k]
    }

    /// The table of frequent simplified ideographs.
    pub fn frequent_simplified(&'static self) -> (r: &'static [u16; 128])
        ensures
            r@ == self.simplified(),
    {
        &self.frequent_simplified
    }

    /// The table of frequent kanji.
    pub fn frequent_kanji(&'static self) -> (r: &'static [u16; 128])
        ensures
            r@ == self.kanji(),
    {
        &self.frequent_kanji
    }

    /// The table of frequent hangul syllables.
    pub fn frequent_hangul(&'static self) -> (r: &'static [u16; 128])
        ensures
            r@ == self.hangul(),
    {
        &self.frequent_hangul
    }
}

} // verus!
