use encoding_detector::arabic_french::ArabicFrenchCandidate;
use encoding_detector::candidate::Candidate;
use encoding_detector::caseless::CaselessCandidate;
use encoding_detector::data::{ASCII_PUNCTUATION, INVALID_CLASS, LATIN_LETTER};
use encoding_detector::hebrew::{LogicalCandidate, VisualCandidate};
use encoding_detector::latin::{LatinCandidate, LatinCaseState};
use encoding_detector::non_latin::{CaseEvent, NonLatinCaseState, NonLatinCasedCandidate};
use encoding_detector::{EncodingId, SingleByteData};

// A small alphabet for the tests below.
//
//   0x20        space                      class 0
//   a-z, A-Z    Latin letters              class 2, upper flag for A-Z
//   . , !       ASCII punctuation          class 3
//   0xC0-0xC7   accented Latin, upper      class 4-11 with upper flag
//   0xE0-0xE7   accented Latin, lower      class 4-11
//   0xD0-0xD7   letters of the script, upper   class 12-19 with upper flag
//   0xF0-0xF7   letters of the script, lower   class 12-19
//   0x80        a sign outside ASCII       class 0
//   0xFF        impossible
//
// Scores: a letter of the script after a letter of the script scores 10,
// an accented Latin letter after a Latin letter scores 7, a Latin letter
// after an accented one scores 3, and everything else nothing.
fn table(encoding: EncodingId) -> &'static SingleByteData {
    let mut classes = vec![0u8; 256];
    for b in b'a'..=b'z' {
        classes[b as usize] = LATIN_LETTER;
    }
    for b in b'A'..=b'Z' {
        classes[b as usize] = LATIN_LETTER | 0x80;
    }
    for &b in b".,!" {
        classes[b as usize] = ASCII_PUNCTUATION;
    }
    for i in 0..8u8 {
        classes[(0xC0 + i) as usize] = (4 + i) | 0x80;
        classes[(0xE0 + i) as usize] = 4 + i;
        classes[(0xD0 + i) as usize] = (12 + i) | 0x80;
        classes[(0xF0 + i) as usize] = 12 + i;
    }
    classes[0xFF] = INVALID_CLASS;
    let mut latin = vec![false; 128];
    let mut non_latin = vec![false; 128];
    latin[LATIN_LETTER as usize] = true;
    for class in 4..12 {
        latin[class] = true;
    }
    for class in 12..20 {
        non_latin[class] = true;
    }
    let mut scores = vec![0i16; 128 * 128];
    for current in 12..20 {
        for previous in 12..20 {
            scores[current * 128 + previous] = 10;
        }
    }
    for accented in 4..12 {
        scores[accented * 128 + LATIN_LETTER as usize] = 7;
        scores[LATIN_LETTER as usize * 128 + accented] = 3;
        for other in 4..12 {
            scores[accented * 128 + other] = 7;
        }
    }
    Box::leak(Box::new(SingleByteData::new(encoding, classes, latin, non_latin, scores).unwrap()))
}

#[test]
fn table_lookups() {
    let t = table(EncodingId::Windows1252);
    assert_eq!(t.encoding(), EncodingId::Windows1252);
    assert!(t.is_complete());
    assert_eq!(t.classify(b'a'), 2);
    assert_eq!(t.classify(b'A'), 0x82);
    assert_eq!(t.classify(b'!'), 3);
    assert_eq!(t.classify(0xD3), 0x80 | 15);
    assert_eq!(t.classify(0xF3), 15);
    assert_eq!(t.classify(0xFF), 0xFF);
    assert_eq!(t.score(12, 13), 10);
    assert_eq!(t.score(4, 2), 7);
    assert_eq!(t.score(2, 4), 3);
    assert_eq!(t.score(2, 2), 0);
    assert_eq!(t.score(200, 2), 0);
    assert_eq!(t.score(2, 128), 0);
    assert!(t.is_latin_alphabetic(2));
    assert!(t.is_latin_alphabetic(4));
    assert!(!t.is_latin_alphabetic(12));
    assert!(!t.is_latin_alphabetic(0));
    assert!(!t.is_latin_alphabetic(130));
    assert!(t.is_non_latin_alphabetic(12));
    assert!(!t.is_non_latin_alphabetic(2));
    assert!(!t.is_non_latin_alphabetic(140));
}

#[test]
fn tables_of_wrong_length_are_refused() {
    let ok = SingleByteData::new(
        EncodingId::Koi8U,
        vec![0; 256],
        vec![false; 128],
        vec![false; 128],
        vec![0; 16384],
    );
    assert!(ok.is_some());
    assert!(SingleByteData::new(
        EncodingId::Koi8U,
        vec![0; 255],
        vec![false; 128],
        vec![false; 128],
        vec![0; 16384]
    )
    .is_none());
    assert!(SingleByteData::new(
        EncodingId::Koi8U,
        vec![0; 256],
        vec![false; 127],
        vec![false; 128],
        vec![0; 16384]
    )
    .is_none());
    assert!(SingleByteData::new(
        EncodingId::Koi8U,
        vec![0; 256],
        vec![false; 128],
        vec![false; 129],
        vec![0; 16384]
    )
    .is_none());
    assert!(SingleByteData::new(
        EncodingId::Koi8U,
        vec![0; 256],
        vec![false; 128],
        vec![false; 128],
        vec![0; 16383]
    )
    .is_none());
}

#[test]
fn latin_ascii_scores_nothing() {
    let mut c = LatinCandidate::new(table(EncodingId::Windows1252));
    assert_eq!(c.feed(b"Plain ASCII text, ALL of it. aB Cd"), Some(0));
    assert_eq!(c.feed(b""), Some(0));
}

#[test]
fn latin_bigrams() {
    // a-E0: 7, E0-b: 3.
    let mut c = LatinCandidate::new(table(EncodingId::Windows1252));
    assert_eq!(c.feed(b"a\xE0b"), Some(10));
    // The context is carried over the end of a buffer.
    let mut d = LatinCandidate::new(table(EncodingId::Windows1252));
    assert_eq!(d.feed(b"a"), Some(0));
    assert_eq!(d.feed(b"\xE0"), Some(7));
    assert_eq!(d.feed(b"b"), Some(3));
}

#[test]
fn latin_run_penalties() {
    // Six lower-case accented letters: each but the first scores 7 after its
    // neighbour; the fourth comes after a run of three, the fifth after four,
    // the sixth after five.
    let mut c = LatinCandidate::new(table(EncodingId::Windows1252));
    assert_eq!(c.feed(b"\xE0\xE1\xE2"), Some(14));
    assert_eq!(c.feed(b"\xE3"), Some(7 - 5));
    assert_eq!(c.feed(b"\xE4"), Some(7 - 20));
    assert_eq!(c.feed(b"\xE5"), Some(7 - 200));
    assert_eq!(c.feed(b"\xE6"), Some(7 - 200));
    // The byte after the run still pays for it; then the run is over.
    assert_eq!(c.feed(b"a"), Some(3 - 200));
    assert_eq!(c.feed(b"\xE0"), Some(7));
}

#[test]
fn latin_case_penalties() {
    // Lower after all-caps, with an accented letter in the pair.
    let mut c = LatinCandidate::new(table(EncodingId::Windows1252));
    assert_eq!(c.feed(b"AB\xE0"), Some(7 - 180));
    // Upper after lower, with an accented letter in the pair.
    let mut d = LatinCandidate::new(table(EncodingId::Windows1252));
    assert_eq!(d.feed(b"a\xC0"), Some(7 - 180));
    // One capital and then lower case is fine.
    let mut e = LatinCandidate::new(table(EncodingId::Windows1252));
    assert_eq!(e.feed(b"\xC0\xE0a"), Some(7 + 3));
    // ASCII pairs are exempt.
    let mut f = LatinCandidate::new(table(EncodingId::Windows1252));
    assert_eq!(f.feed(b"ABc dE"), Some(0));
}

#[test]
fn latin_case_machine() {
    let mut s = LatinCaseState::Space;
    assert_eq!(s.advance(true, true, false), 0);
    assert_eq!(s, LatinCaseState::Upper);
    assert_eq!(s.advance(true, true, false), 0);
    assert_eq!(s, LatinCaseState::AllCaps);
    assert_eq!(s.advance(true, false, false), -180);
    assert_eq!(s, LatinCaseState::Lower);
    assert_eq!(s.advance(true, true, true), 0);
    assert_eq!(s, LatinCaseState::Upper);
    assert_eq!(s.advance(true, false, false), 0);
    assert_eq!(s, LatinCaseState::Lower);
    assert_eq!(s.advance(true, true, false), -180);
    assert_eq!(s, LatinCaseState::Upper);
    assert_eq!(s.advance(false, false, false), 0);
    assert_eq!(s, LatinCaseState::Space);
}

#[test]
fn latin_impossible_byte() {
    let mut c = LatinCandidate::new(table(EncodingId::Windows1252));
    assert_eq!(c.feed(b"ab\xFFcd"), None);
    // A long run goes on paying the highest penalty.
    let mut long = LatinCandidate::new(table(EncodingId::Windows1252));
    assert_eq!(long.feed(&[0xE0; 1000]), Some(999 * 7 - 5 - 20 - 995 * 200));
    assert_eq!(c.feed_with_end(b"\xFF", true), None);
}

#[test]
fn latin_end_of_stream() {
    // The space at the end pays for the run of four before it.
    let mut c = LatinCandidate::new(table(EncodingId::Windows1252));
    assert_eq!(c.feed_with_end(b"\xE0\xE1\xE2\xE3", true), Some(7 + 7 + 7 - 5 - 20));
    let mut d = LatinCandidate::new(table(EncodingId::Windows1252));
    assert_eq!(d.feed_with_end(b"\xE0\xE1\xE2\xE3", false), Some(7 + 7 + 7 - 5));
}

#[test]
fn non_latin_capitalised_word() {
    // Upper, lower, lower, space: two bigrams and the bonus at the end of
    // the word.
    let mut c = NonLatinCasedCandidate::new(table(EncodingId::Windows1251));
    assert_eq!(c.feed(b"\xD0\xF1\xF2"), Some(20));
    assert_eq!(c.longest_word(), 0);
    assert_eq!(c.feed(b" "), Some(40));
    assert_eq!(c.longest_word(), 3);
}

#[test]
fn non_latin_inverted_case() {
    // Lower then upper: the penalty falls at the end of the word.
    let mut c = NonLatinCasedCandidate::new(table(EncodingId::Windows1251));
    assert_eq!(c.feed(b"\xF0\xD1"), Some(10));
    assert_eq!(c.feed(b" "), Some(-100));
    // Lower, upper, upper: at the second capital.
    let mut d = NonLatinCasedCandidate::new(table(EncodingId::Windows1251));
    assert_eq!(d.feed(b"\xF0\xD1\xD2"), Some(20 - 100));
    assert_eq!(d.feed(b"\xD3"), Some(10 - 20));
    assert_eq!(d.feed(b" "), Some(-20));
}

#[test]
fn non_latin_camel_case() {
    let mut c = NonLatinCasedCandidate::new(table(EncodingId::Windows1251));
    // Lower, upper, lower: camel penalty at the third letter.
    assert_eq!(c.feed(b"\xF0\xD1\xF2"), Some(20 - 80));
    // A further lower-case letter: once more, and the word is forgiven.
    assert_eq!(c.feed(b"\xF3"), Some(10 - 80));
    assert_eq!(c.feed(b"\xF4 "), Some(10));
}

#[test]
fn non_latin_all_caps() {
    let mut other = NonLatinCasedCandidate::new(table(EncodingId::Windows1251));
    assert_eq!(other.feed(b"\xD0\xD1\xD2 "), Some(20));
    let mut koi = NonLatinCasedCandidate::new(table(EncodingId::Koi8U));
    assert_eq!(koi.feed(b"\xD0\xD1\xD2 "), Some(20 - 40));
    // Lower case after capitals is implausible.
    let mut mixed = NonLatinCasedCandidate::new(table(EncodingId::Windows1251));
    assert_eq!(mixed.feed(b"\xD0\xD1\xF2"), Some(20 - 100));
    assert_eq!(mixed.feed(b"\xF3"), Some(10 - 20));
}

#[test]
fn non_latin_latin_adjacency() {
    // A Latin letter before a letter of the script, and after one. The Latin
    // letter makes the word a mix, in which each letter of the script is
    // penalised, and so is its end.
    let mut c = NonLatinCasedCandidate::new(table(EncodingId::Windows1251));
    assert_eq!(c.feed(b"a\xF0"), Some(-50 - 20));
    assert_eq!(c.feed(b"b"), Some(-50));
    assert_eq!(c.feed(b"\xF1"), Some(-50 - 20));
    assert_eq!(c.feed(b"\xF2"), Some(10 - 20));
    assert_eq!(c.feed(b" "), Some(-20));
}

#[test]
fn non_latin_case_machine() {
    let mut s = NonLatinCaseState::Space;
    assert_eq!(s.advance(CaseEvent::UpperLetter, false), 0);
    assert_eq!(s, NonLatinCaseState::Upper);
    assert_eq!(s.advance(CaseEvent::LowerLetter, false), 0);
    assert_eq!(s, NonLatinCaseState::UpperLower);
    assert_eq!(s.advance(CaseEvent::UpperLetter, false), 0);
    assert_eq!(s, NonLatinCaseState::LowerUpper);
    assert_eq!(s.advance(CaseEvent::LowerLetter, false), -80);
    assert_eq!(s, NonLatinCaseState::LowerUpperLower);
    assert_eq!(s.advance(CaseEvent::Break, false), -80);
    assert_eq!(s, NonLatinCaseState::Space);
    assert_eq!(s.advance(CaseEvent::Latin, false), 0);
    assert_eq!(s, NonLatinCaseState::Mix);
    assert_eq!(s.advance(CaseEvent::UpperLetter, false), -20);
    assert_eq!(s, NonLatinCaseState::Mix);
    assert_eq!(s.advance(CaseEvent::Break, true), -20);
    let mut caps = NonLatinCaseState::AllCaps;
    assert_eq!(caps.advance(CaseEvent::Break, true), -40);
    let mut caps = NonLatinCaseState::AllCaps;
    assert_eq!(caps.advance(CaseEvent::Break, false), 0);
    let mut good = NonLatinCaseState::UpperLower;
    assert_eq!(good.advance(CaseEvent::Break, false), 40);
    let mut bad = NonLatinCaseState::LowerUpperLower;
    assert_eq!(bad.advance(CaseEvent::UpperLetter, false), -100);
    assert_eq!(bad, NonLatinCaseState::Mix);
}

#[test]
fn non_latin_impossible_byte() {
    let mut c = NonLatinCasedCandidate::new(table(EncodingId::Windows1251));
    assert_eq!(c.feed(b"\xF0\xF1\xFF"), None);
}

#[test]
fn caseless_words() {
    let mut c = CaselessCandidate::new(table(EncodingId::Windows874));
    // Case plays no part: capitals and lower case are the same letters.
    assert_eq!(c.feed(b"\xF0\xD1\xF2\xD3"), Some(30));
    assert_eq!(c.longest_word(), 0);
    assert_eq!(c.feed(b" \xF0\xF1 "), Some(10));
    assert_eq!(c.longest_word(), 4);
    assert_eq!(c.feed(b"x\xF0"), Some(-50));
    assert_eq!(c.feed(b"\xFF"), None);
}

#[test]
fn arabic_french_combines_both() {
    let mut c = ArabicFrenchCandidate::new(table(EncodingId::Windows1256));
    // Letters of the script make words; accented Latin letters do not count
    // as Latin here, so they end the word and the case machine rests.
    assert_eq!(c.feed(b"\xF0\xF1\xF2 "), Some(20));
    assert_eq!(c.longest_word(), 3);
    // Latin case is judged as in Latin text: lower after all-caps, with a
    // byte outside ASCII before the pair's second letter.
    assert_eq!(c.feed(b"AB"), Some(0));
    assert_eq!(c.feed(b"\xF0"), Some(-50));
    assert_eq!(c.feed(b"c"), Some(-50));
    let mut d = ArabicFrenchCandidate::new(table(EncodingId::Windows1256));
    assert_eq!(d.feed(b"\xF0AB"), Some(-50));
    assert_eq!(d.feed(b"\xFF"), None);
}

#[test]
fn hebrew_plausible_punctuation() {
    let mut logical = LogicalCandidate::new(table(EncodingId::Windows1255));
    let mut visual = VisualCandidate::new(table(EncodingId::Iso8859_8));
    // A word followed by a full stop: plausible in reading order.
    assert_eq!(logical.feed(b"\xF0\xF1."), Some(10));
    assert_eq!(visual.feed(b"\xF0\xF1."), Some(10));
    assert_eq!(logical.plausible_punctuation(), 1);
    assert_eq!(visual.plausible_punctuation(), 0);
    // A full stop followed by a word: plausible in display order.
    assert_eq!(logical.feed(b" .\xF0\xF1 "), Some(10));
    assert_eq!(visual.feed(b" .\xF0\xF1 "), Some(10));
    assert_eq!(logical.plausible_punctuation(), 1);
    assert_eq!(visual.plausible_punctuation(), 1);
    assert_eq!(logical.longest_word(), 2);
    assert_eq!(visual.longest_word(), 2);
    assert_eq!(logical.feed(b"\xFF"), None);
    assert_eq!(visual.feed(b"\xFF"), None);
}

#[test]
fn candidate_keeps_its_score() {
    let mut c = Candidate::new_non_latin_cased(table(EncodingId::Windows1251));
    assert_eq!(c.encoding(), EncodingId::Windows1251);
    assert!(c.is_live());
    // No word of two letters yet: held back.
    assert_eq!(c.score(), None);
    c.feed(b"\xD0\xF1\xF2", false);
    assert_eq!(c.score(), None);
    c.feed(b" \xF0\xF1", true);
    assert_eq!(c.score(), Some(20 + 40 + 10));
}

#[test]
fn candidate_is_disqualified_for_good() {
    let mut c = Candidate::new_latin(table(EncodingId::Windows1252));
    c.feed(b"a\xE0", false);
    assert_eq!(c.score(), Some(7));
    c.feed(b"\xFF", false);
    assert!(!c.is_live());
    assert_eq!(c.score(), None);
    c.feed(b"a\xE0a\xE0", true);
    assert!(!c.is_live());
    assert_eq!(c.score(), None);
}

#[test]
fn candidate_of_each_discipline() {
    let t = table(EncodingId::Windows1255);
    assert_eq!(Candidate::new_latin(t).score(), Some(0));
    assert_eq!(Candidate::new_non_latin_cased(t).score(), None);
    assert_eq!(Candidate::new_caseless(t).score(), None);
    assert_eq!(Candidate::new_arabic_french(t).score(), None);
    assert_eq!(Candidate::new_logical(t).score(), None);
    assert_eq!(Candidate::new_visual(t).score(), None);
    assert_eq!(Candidate::new_logical(t).plausible_punctuation(), 0);
    assert_eq!(Candidate::new_logical(t).encoding(), EncodingId::Windows1255);
    let mut logical = Candidate::new_logical(t);
    logical.feed(b"\xF0\xF1.", true);
    assert_eq!(logical.plausible_punctuation(), 1);
    assert_eq!(logical.score(), Some(10));
    let mut visual = Candidate::new_visual(t);
    visual.feed(b".\xF0\xF1", true);
    assert_eq!(visual.plausible_punctuation(), 1);
    assert_eq!(visual.score(), Some(10));
}
