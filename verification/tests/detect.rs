use encoding_detector::data::{ASCII_PUNCTUATION, INVALID_CLASS, LATIN_LETTER};
use encoding_detector::{DetectorData, EncodingDetector, EncodingId, SingleByteData};
use encoding_rs::Encoding;

/// The encoding of `encoding_rs` that an identifier stands for.
fn encoding_of(id: EncodingId) -> &'static Encoding {
    match id {
        EncodingId::Utf8 => encoding_rs::UTF_8,
        EncodingId::ShiftJis => encoding_rs::SHIFT_JIS,
        EncodingId::EucJp => encoding_rs::EUC_JP,
        EncodingId::EucKr => encoding_rs::EUC_KR,
        EncodingId::Big5 => encoding_rs::BIG5,
        EncodingId::Gbk => encoding_rs::GBK,
        EncodingId::Iso2022Jp => encoding_rs::ISO_2022_JP,
        EncodingId::Windows1250 => encoding_rs::WINDOWS_1250,
        EncodingId::Windows1251 => encoding_rs::WINDOWS_1251,
        EncodingId::Windows1252 => encoding_rs::WINDOWS_1252,
        EncodingId::Windows1253 => encoding_rs::WINDOWS_1253,
        EncodingId::Windows1254 => encoding_rs::WINDOWS_1254,
        EncodingId::Windows1255 => encoding_rs::WINDOWS_1255,
        EncodingId::Windows1256 => encoding_rs::WINDOWS_1256,
        EncodingId::Windows1257 => encoding_rs::WINDOWS_1257,
        EncodingId::Windows1258 => encoding_rs::WINDOWS_1258,
        EncodingId::Windows874 => encoding_rs::WINDOWS_874,
        EncodingId::Iso8859_2 => encoding_rs::ISO_8859_2,
        EncodingId::Iso8859_4 => encoding_rs::ISO_8859_4,
        EncodingId::Iso8859_5 => encoding_rs::ISO_8859_5,
        EncodingId::Iso8859_6 => encoding_rs::ISO_8859_6,
        EncodingId::Iso8859_7 => encoding_rs::ISO_8859_7,
        EncodingId::Iso8859_8 => encoding_rs::ISO_8859_8,
        EncodingId::Iso8859_13 => encoding_rs::ISO_8859_13,
        EncodingId::Koi8U => encoding_rs::KOI8_U,
        EncodingId::Ibm866 => encoding_rs::IBM866,
    }
}

fn is_latin_script(c: char) -> bool {
    let u = c as u32;
    u < 0x250 || (0x1E00..0x1F00).contains(&u)
}

/// Builds the tables of a single-byte encoding. Classes come from what each
/// byte decodes to; bigram scores come from counting the class pairs of the
/// sample texts. `latin_text` says whether the encoding is one for text in
/// the Latin alphabet, whose accented letters then get classes of their own.
fn train(id: EncodingId, latin_text: bool, samples: &[&str]) -> SingleByteData {
    let encoding = encoding_of(id);
    let mut classes = vec![0u8; 256];
    let mut latin = vec![false; 128];
    let mut non_latin = vec![false; 128];
    let mut letters: Vec<char> = Vec::new();
    latin[LATIN_LETTER as usize] = true;
    for b in 0..=255u8 {
        let byte = [b];
        let (decoded, had_errors) = encoding.decode_without_bom_handling(&byte);
        if had_errors {
            classes[b as usize] = INVALID_CLASS;
            continue;
        }
        let c = decoded.chars().next().unwrap();
        let upper = if c.is_uppercase() { 0x80u8 } else { 0 };
        let class = if c.is_ascii_alphabetic() {
            LATIN_LETTER | upper
        } else if c.is_ascii_punctuation() {
            ASCII_PUNCTUATION
        } else if c.is_alphabetic() && is_latin_script(c) && !latin_text {
            LATIN_LETTER | upper
        } else if c.is_alphabetic() {
            let folded = c.to_lowercase().next().unwrap();
            let place = match letters.iter().position(|&l| l == folded) {
                Some(place) => place,
                None => {
                    letters.push(folded);
                    letters.len() - 1
                }
            };
            let caseless = 4 + place;
            assert!(caseless < 128);
            if is_latin_script(c) {
                latin[caseless] = true;
            } else {
                non_latin[caseless] = true;
            }
            caseless as u8 | upper
        } else {
            0
        };
        classes[b as usize] = class;
    }
    let mut counts = vec![0i64; 128 * 128];
    for sample in samples {
        let (bytes, _, _) = encoding.encode(sample);
        let mut prev = 0usize;
        let mut prev_ascii = true;
        for &b in bytes.iter().chain([0x20u8].iter()) {
            let class = classes[b as usize];
            if class == INVALID_CLASS {
                continue;
            }
            let caseless = (class & 0x7F) as usize;
            let ascii = b < 0x80;
            if !(prev_ascii && ascii) {
                counts[caseless * 128 + prev] += 1;
            }
            prev = caseless;
            prev_ascii = ascii;
        }
    }
    let scores: Vec<i16> = counts.iter().map(|&n| (40 * n).min(255) as i16).collect();
    SingleByteData::new(id, classes, latin, non_latin, scores).unwrap()
}

fn reversed(text: &str) -> String {
    text.chars().rev().collect()
}

/// A table of frequent characters: the given ones first, then filler that
/// no ideograph or syllable equals.
fn frequent(first: &str) -> [u16; 128] {
    let mut table = [0u16; 128];
    for (i, slot) in table.iter_mut().enumerate() {
        *slot = 0x0100 + i as u16;
    }
    for (i, c) in first.chars().enumerate() {
        table[i] = c as u32 as u16;
    }
    table
}

const FINNISH: &str = "Ääni on värähtelyä. Äidinkieli on äänteiden kieltä. Ääni";
const GERMAN: &str = "Die Straße ist groß. Schöne Grüße aus der Straße. Straße";
const RUSSIAN: &str = "Русский язык один из восточнославянских языков. Русский";
const GREEK: &str = "Ελληνικά: η ελληνική γλώσσα ανήκει στην οικογένεια. Ελληνικά";
const HEBREW: &str = "עברית היא שפה שמית. עברית";
const THAI: &str = "ไทย ภาษาไทย เป็นภาษาราชการของประเทศไทย ไทย";
const ARABIC: &str = "العربية هي أكثر اللغات السامية تحدثا";
const POLISH: &str = "Język polski należy do grupy języków zachodniosłowiańskich";
const TURKISH: &str = "Türkçe, Türk dilleri ailesine ait bir dildir. Öğrenci";
const LATVIAN: &str = "Latviešu valoda ir dzimtā valoda apmēram miljonam cilvēku";
const ICELANDIC: &str = "Íslenska er vesturnorrænt mál. Það þýðir að hún";
const VIETNAMESE: &str = "Tiếng Việt là ngôn ngữ của người Việt";

fn data() -> &'static DetectorData {
    let visual_hebrew = reversed(HEBREW);
    let tables = vec![
        train(EncodingId::Iso8859_8, false, &[&visual_hebrew]),
        train(EncodingId::Windows1252, true, &[FINNISH, GERMAN]),
        train(EncodingId::Windows1251, false, &[RUSSIAN]),
        train(EncodingId::Windows1250, true, &[POLISH]),
        train(EncodingId::Iso8859_2, true, &[POLISH]),
        train(EncodingId::Windows1256, false, &[ARABIC]),
        train(EncodingId::Windows1252, true, &[ICELANDIC]),
        train(EncodingId::Windows1254, true, &[TURKISH]),
        train(EncodingId::Windows874, false, &[THAI]),
        train(EncodingId::Windows1255, false, &[HEBREW]),
        train(EncodingId::Windows1253, false, &[GREEK]),
        train(EncodingId::Iso8859_7, false, &[GREEK]),
        train(EncodingId::Windows1257, true, &[LATVIAN]),
        train(EncodingId::Iso8859_13, true, &[LATVIAN]),
        train(EncodingId::Koi8U, false, &[RUSSIAN]),
        train(EncodingId::Ibm866, false, &[RUSSIAN]),
        train(EncodingId::Iso8859_6, false, &[ARABIC]),
        train(EncodingId::Windows1258, true, &[VIETNAMESE]),
        train(EncodingId::Iso8859_4, true, &[LATVIAN]),
        train(EncodingId::Iso8859_5, false, &[RUSSIAN]),
    ];
    let built = DetectorData::new(
        tables,
        frequent("的一是不了在人有我他这个们中来上大为和国"),
        frequent("日本人年大十二中国会出事生時行見月分後前"),
        frequent("이다의는에을한가를로고하은기도지어사서인"),
    )
    .unwrap();
    Box::leak(Box::new(built))
}

fn detect(bytes: &[u8], allow_utf8: bool) -> EncodingId {
    let mut det = EncodingDetector::new(data());
    det.feed(bytes, true);
    det.guess(None, allow_utf8)
}

fn check(input: &str, encoding: EncodingId) {
    let (bytes, _, _) = encoding_of(encoding).encode(input);
    let mut det = EncodingDetector::new(data());
    det.feed(&bytes, true);
    let enc = det.guess(None, false);
    let (decoded, _) = encoding_of(enc).decode_without_bom_handling(&bytes);
    println!("{:?}", decoded);
    assert_eq!(enc, encoding);
}

#[test]
fn test_empty() {
    let mut det = EncodingDetector::new(data());
    let seen_non_ascii = det.feed(b"", true);
    let enc = det.guess(None, true);
    assert_eq!(enc, EncodingId::Windows1252);
    assert!(!seen_non_ascii);
}

#[test]
fn test_fi() {
    check("Ääni", EncodingId::Windows1252);
}

#[test]
fn test_ru() {
    check("Русский", EncodingId::Windows1251);
}

#[test]
fn test_el() {
    check("Ελληνικά", EncodingId::Windows1253);
}

#[test]
fn test_de() {
    check("Straße", EncodingId::Windows1252);
}

#[test]
fn test_he() {
    check("\u{5E2}\u{5D1}\u{5E8}\u{5D9}\u{5EA}", EncodingId::Windows1255);
}

#[test]
fn test_foo() {
    check("Straße", EncodingId::Windows1252);
}

#[test]
fn test_th() {
    check("ไทย", EncodingId::Windows874);
}

#[test]
fn ascii_is_neutral() {
    let mut det = EncodingDetector::new(data());
    assert!(!det.feed(b"plain text, no more", false));
    assert!(!det.feed(b"and some more of it", true));
    assert_eq!(det.guess(None, true), EncodingId::Windows1252);
    assert_eq!(det.guess(None, false), EncodingId::Windows1252);
    assert_eq!(det.find_score(EncodingId::Windows1251), None);
    assert_eq!(det.find_score(EncodingId::Windows1252), Some(0));
    assert_eq!(det.find_score(EncodingId::Gbk), Some(0));
}

#[test]
fn valid_utf8_is_utf8_when_allowed() {
    let bytes = "Ääni, Русский, 日本語".as_bytes();
    assert_eq!(detect(bytes, true), EncodingId::Utf8);
    assert_ne!(detect(bytes, false), EncodingId::Utf8);
}

#[test]
fn utf8_in_chunks_is_utf8() {
    // The byte that is held back is handed to the decoders by itself.
    let bytes = "Text: Ääni, Русский, 日本語".as_bytes();
    for cut in 0..=bytes.len() {
        let mut det = EncodingDetector::new(data());
        det.feed(&bytes[..cut], false);
        det.feed(&bytes[cut..], true);
        assert_eq!(det.guess(None, true), EncodingId::Utf8);
        assert_eq!(det.find_score(EncodingId::Utf8), Some(0));
    }
}

#[test]
fn ascii_alone_is_not_utf8() {
    assert_eq!(detect(b"just ASCII", true), EncodingId::Windows1252);
}

#[test]
fn malformed_utf8_is_not_utf8() {
    let (bytes, _, _) = encoding_rs::WINDOWS_1251.encode("Русский");
    let mut det = EncodingDetector::new(data());
    assert!(det.feed(&bytes, true));
    assert_eq!(det.find_score(EncodingId::Utf8), None);
    assert_eq!(det.guess(None, true), EncodingId::Windows1251);
}

#[test]
fn escape_in_ascii_is_iso_2022_jp() {
    let mut det = EncodingDetector::new(data());
    assert!(!det.feed(b"abc\x1B$B@", true));
    assert_eq!(det.guess(None, true), EncodingId::Iso2022Jp);
    assert_eq!(det.guess(None, false), EncodingId::Iso2022Jp);
}

#[test]
fn escape_after_non_ascii_is_not_iso_2022_jp() {
    let (mut bytes, _, _) = {
        let (b, e, f) = encoding_rs::WINDOWS_1251.encode("Русский");
        (b.into_owned(), e, f)
    };
    bytes.extend_from_slice(b" \x1B");
    assert_ne!(detect(&bytes, false), EncodingId::Iso2022Jp);
}

#[test]
fn feed_reports_non_ascii() {
    let mut det = EncodingDetector::new(data());
    assert!(!det.feed(b"abc", false));
    assert!(det.feed(b"\xE4", false));
    assert!(det.feed(b"abc", true));
}

#[test]
fn chunks_do_not_change_the_verdict() {
    let (bytes, _, _) = encoding_rs::WINDOWS_1251.encode("Text: Русский язык один");
    let mut whole = EncodingDetector::new(data());
    whole.feed(&bytes, true);
    for cut in 1..bytes.len() {
        let mut parts = EncodingDetector::new(data());
        parts.feed(&bytes[..cut], false);
        parts.feed(&bytes[cut..], true);
        assert_eq!(parts.guess(None, false), whole.guess(None, false));
        assert_eq!(parts.guess(None, false), EncodingId::Windows1251);
        for id in [
            EncodingId::Windows1251,
            EncodingId::Windows1252,
            EncodingId::Koi8U,
            EncodingId::Iso8859_5,
            EncodingId::Windows1255,
        ] {
            assert_eq!(parts.find_score(id), whole.find_score(id));
        }
    }
}

#[test]
fn chunks_do_not_change_the_scores_of_decoding_candidates() {
    let (bytes, _, _) = encoding_rs::GBK.encode("abc 中国的文字, 一个 test 人。");
    let mut whole = EncodingDetector::new(data());
    whole.feed(&bytes, true);
    assert!(whole.find_score(EncodingId::Gbk).unwrap() > 0);
    for cut in 1..bytes.len() {
        let mut parts = EncodingDetector::new(data());
        parts.feed(&bytes[..cut], false);
        parts.feed(&bytes[cut..], true);
        for id in [
            EncodingId::Gbk,
            EncodingId::Big5,
            EncodingId::EucKr,
            EncodingId::EucJp,
            EncodingId::ShiftJis,
            EncodingId::Utf8,
        ] {
            assert_eq!(parts.find_score(id), whole.find_score(id));
        }
        assert_eq!(parts.guess(None, true), whole.guess(None, true));
    }
}

#[test]
fn chinese_is_gbk() {
    let (bytes, _, _) = encoding_rs::GBK.encode("中国的文字, 一个人在这。");
    assert_eq!(detect(&bytes, false), EncodingId::Gbk);
}

#[test]
fn an_empty_chunk_changes_nothing() {
    // An empty buffer shows the candidates nothing while the detector holds
    // back, and the byte that is held back is shown once only.
    let mut straight = EncodingDetector::new(data());
    straight.feed(b"A", false);
    straight.feed(b"\xE4 ", true);
    let mut stuttering = EncodingDetector::new(data());
    stuttering.feed(b"A", false);
    stuttering.feed(b"", false);
    stuttering.feed(b"\xE4 ", true);
    let one = straight.find_score(EncodingId::Windows1252).unwrap();
    let two = stuttering.find_score(EncodingId::Windows1252).unwrap();
    assert_eq!(two, one);
    assert_eq!(stuttering.guess(None, false), straight.guess(None, false));
}

#[test]
fn empty_chunks_anywhere_do_not_change_the_scores() {
    let (bytes, _, _) = encoding_rs::WINDOWS_1251.encode("Text: Русский язык один");
    let mut whole = EncodingDetector::new(data());
    whole.feed(&bytes, true);
    for cut in 0..=bytes.len() {
        let mut parts = EncodingDetector::new(data());
        parts.feed(b"", false);
        parts.feed(&bytes[..cut], false);
        parts.feed(b"", false);
        parts.feed(&bytes[cut..], true);
        for id in [EncodingId::Windows1251, EncodingId::Windows1252, EncodingId::Gbk] {
            assert_eq!(parts.find_score(id), whole.find_score(id));
        }
        assert_eq!(parts.guess(None, false), whole.guess(None, false));
    }
}

#[test]
fn an_empty_stream_is_held_back() {
    let mut det = EncodingDetector::new(data());
    assert_eq!(det.try_feed(b"", true), Some(false));
    // Nothing was shown, so the detector is still open.
    assert!(det.can_feed(1));
    assert_eq!(det.find_score(EncodingId::Windows1252), Some(0));
}

#[test]
fn three_chunks_do_not_change_the_scores() {
    let (bytes, _, _) = encoding_rs::WINDOWS_1253.encode("abc Ελληνικά, η ελληνική γλώσσα");
    let mut whole = EncodingDetector::new(data());
    whole.feed(&bytes, true);
    let mut parts = EncodingDetector::new(data());
    parts.feed(&bytes[..2], false);
    parts.feed(&bytes[2..9], false);
    parts.feed(&bytes[9..], true);
    assert_eq!(parts.guess(None, false), EncodingId::Windows1253);
    assert_eq!(parts.find_score(EncodingId::Windows1253), whole.find_score(EncodingId::Windows1253));
    assert_eq!(parts.find_score(EncodingId::Windows1251), whole.find_score(EncodingId::Windows1251));
}

#[test]
fn impossible_byte_disqualifies_for_good() {
    // 0xD2 is not a byte of windows-1253; the Greek that follows cannot
    // bring the candidate back.
    let mut det = EncodingDetector::new(data());
    det.feed(b"\xD2", false);
    assert_eq!(det.find_score(EncodingId::Windows1253), None);
    let (bytes, _, _) = encoding_rs::WINDOWS_1253.encode("Ελληνικά");
    det.feed(&bytes, true);
    assert_eq!(det.find_score(EncodingId::Windows1253), None);
    assert_ne!(det.guess(None, false), EncodingId::Windows1253);
}

#[test]
fn short_word_holds_a_candidate_back() {
    // One Cyrillic letter makes no word of two letters.
    let mut det = EncodingDetector::new(data());
    det.feed(b"a \xE0 b", true);
    assert_eq!(det.find_score(EncodingId::Windows1251), None);
    assert!(det.find_score(EncodingId::Windows1252).is_some());
}

#[test]
fn find_score_of_an_encoding_without_candidate() {
    let det = EncodingDetector::new(data());
    assert_eq!(det.find_score(EncodingId::Iso2022Jp), Some(0));
    assert_eq!(det.find_score(EncodingId::Utf8), Some(0));
}

#[test]
fn visual_hebrew_wins_by_punctuation() {
    // Hebrew in display order: each word is written backwards, and the full
    // stop stands before the word it ends.
    let visual = reversed("עברית היא שפה שמית.");
    let (bytes, _, _) = encoding_rs::ISO_8859_8.encode(&visual);
    let mut det = EncodingDetector::new(data());
    det.feed(&bytes, true);
    assert_eq!(det.guess(None, false), EncodingId::Iso8859_8);
}

#[test]
fn a_closed_detector_takes_no_more() {
    let (bytes, _, _) = encoding_rs::WINDOWS_1251.encode("Русский");
    let mut det = EncodingDetector::new(data());
    assert!(det.can_feed(bytes.len()));
    assert_eq!(det.try_feed(&bytes, true), Some(true));
    assert!(!det.can_feed(0));
    assert_eq!(det.try_feed(b"more", false), None);
    assert_eq!(det.guess(None, false), EncodingId::Windows1251);
}

#[test]
fn ascii_that_is_held_back_does_not_close() {
    let mut det = EncodingDetector::new(data());
    assert_eq!(det.try_feed(b"plain", true), Some(false));
    assert!(det.can_feed(5));
    assert_eq!(det.try_feed(b"plain", true), Some(false));
    assert_eq!(det.try_feed(b"\xE4", true), Some(true));
    assert!(!det.can_feed(1));
}

#[test]
fn a_detector_has_room_as_far_as_scores_can_count() {
    let det = EncodingDetector::new(data());
    assert!(det.can_feed(0xFFFF_FFFF));
    assert!(det.can_feed(0x7FFF_FFFF_FFFC));
    assert!(!det.can_feed(0x7FFF_FFFF_FFFD));
    assert!(!det.can_feed(usize::MAX));
}

#[test]
fn wrong_tables_are_refused() {
    assert!(DetectorData::new(Vec::new(), [0; 128], [0; 128], [0; 128]).is_none());
    let one = vec![train(EncodingId::Windows1252, true, &[])];
    assert!(DetectorData::new(one, [0; 128], [0; 128], [0; 128]).is_none());
    let mut twenty = Vec::new();
    for _ in 0..20 {
        twenty.push(train(EncodingId::Windows1252, true, &[]));
    }
    assert!(DetectorData::new(twenty, [0; 128], [0; 128], [0; 128]).is_none());
}
