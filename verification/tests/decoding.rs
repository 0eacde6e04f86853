use encoding_detector::big5::Big5Candidate;
use encoding_detector::candidate::Candidate;
use encoding_detector::cjk::{cjk_extra_score, problematic_lead};
use encoding_detector::detector::count_non_ascii;
use encoding_detector::euc_jp::EucJpCandidate;
use encoding_detector::euc_kr::EucKrCandidate;
use encoding_detector::gbk::GbkCandidate;
use encoding_detector::outside::{DecodeStatus, Decoded};
use encoding_detector::shift_jis::ShiftJisCandidate;
use encoding_detector::utf8::{ChunkVerdict, Utf8Candidate};
use encoding_detector::EncodingId;

/// A table of frequent characters: the given ones first, then filler.
fn frequent(first: &str) -> &'static [u16; 128] {
    let mut table = [0u16; 128];
    for (i, slot) in table.iter_mut().enumerate() {
        *slot = 0x0100 + i as u16;
    }
    for (i, c) in first.chars().enumerate() {
        table[i] = c as u32 as u16;
    }
    Box::leak(Box::new(table))
}

fn bytes_of(encoding: &'static encoding_rs::Encoding, text: &str) -> Vec<u8> {
    let (bytes, _, had_errors) = encoding.encode(text);
    assert!(!had_errors);
    bytes.into_owned()
}

fn wrote(first: u16) -> Decoded {
    Decoded { status: DecodeStatus::InputEmpty, written: 1, first }
}

fn wrote_pair(first: u16) -> Decoded {
    Decoded { status: DecodeStatus::InputEmpty, written: 2, first }
}

fn wrote_nothing() -> Decoded {
    Decoded { status: DecodeStatus::InputEmpty, written: 0, first: 0 }
}

#[test]
fn extra_score_by_place() {
    let mut table = [0u16; 128];
    for (i, slot) in table.iter_mut().enumerate() {
        *slot = 0x4E00 + i as u16;
    }
    table[100] = 0x4E00 + 3;
    let table: &'static [u16; 128] = Box::leak(Box::new(table));
    assert_eq!(cjk_extra_score(0x4E00, table), 8);
    assert_eq!(cjk_extra_score(0x4E00 + 15, table), 7);
    assert_eq!(cjk_extra_score(0x4E00 + 16, table), 7);
    assert_eq!(cjk_extra_score(0x4E00 + 17, table), 6);
    assert_eq!(cjk_extra_score(0x4E00 + 112, table), 1);
    assert_eq!(cjk_extra_score(0x4E00 + 113, table), 0);
    assert_eq!(cjk_extra_score(0x4E00 + 127, table), 0);
    // The first of two places counts.
    assert_eq!(cjk_extra_score(0x4E00 + 3, table), 7);
    // Not in the table.
    assert_eq!(cjk_extra_score(0x4E00 + 100, table), 0);
    assert_eq!(cjk_extra_score(0x3042, table), 0);
}

#[test]
fn problematic_lead_is_0x92() {
    assert!(problematic_lead(0x92));
    assert!(!problematic_lead(0x91));
    assert!(!problematic_lead(0x93));
    assert!(!problematic_lead(0));
}

#[test]
fn counting_non_ascii() {
    assert_eq!(count_non_ascii(b""), 0);
    assert_eq!(count_non_ascii(b"plain"), 0);
    assert_eq!(count_non_ascii(b"a\x80b\xFF\x7F"), 2);
    assert_eq!(count_non_ascii(&[0x80; 300]), 300);
}

#[test]
fn utf8_verdicts() {
    assert_eq!(Utf8Candidate::verdict(DecodeStatus::InputEmpty, 0), ChunkVerdict::Accepted);
    assert_eq!(Utf8Candidate::verdict(DecodeStatus::InputEmpty, 7), ChunkVerdict::Accepted);
    assert_eq!(Utf8Candidate::verdict(DecodeStatus::Malformed, 3), ChunkVerdict::Rejected);
    assert_eq!(Utf8Candidate::verdict(DecodeStatus::OutputFull, 3), ChunkVerdict::Continue);
    assert_eq!(Utf8Candidate::verdict(DecodeStatus::OutputFull, 0), ChunkVerdict::Rejected);
}

#[test]
fn utf8_accepts_utf8() {
    let mut c = Utf8Candidate::new();
    assert_eq!(c.feed("Ääni, Русский".as_bytes(), false), Some(0));
    assert_eq!(c.feed("日本語".as_bytes(), true), Some(0));
}

#[test]
fn utf8_accepts_a_sequence_cut_in_two() {
    let bytes = "ä".as_bytes();
    let mut c = Utf8Candidate::new();
    assert_eq!(c.feed(&bytes[..1], false), Some(0));
    assert_eq!(c.feed(&bytes[1..], true), Some(0));
}

#[test]
fn utf8_accepts_more_than_one_buffer_of_output() {
    let text = "ä".repeat(5000);
    let mut c = Utf8Candidate::new();
    assert_eq!(c.feed(text.as_bytes(), true), Some(0));
}

#[test]
fn utf8_rejects_what_is_not_utf8() {
    let mut c = Utf8Candidate::new();
    assert_eq!(c.feed(b"abc\xE4def", false), None);
    let mut d = Utf8Candidate::new();
    assert_eq!(d.feed(b"\xFF", true), None);
    // A sequence that the end of the stream cuts short.
    let mut e = Utf8Candidate::new();
    assert_eq!(e.feed(&"ä".as_bytes()[..1], true), None);
}

#[test]
fn gbk_levels() {
    let table = frequent("的中");
    // Level 1 with the bonus of the second place in the table.
    let zhong = bytes_of(encoding_rs::GBK, "中");
    assert_eq!(zhong, [0xD6, 0xD0]);
    let mut c = GbkCandidate::new(table);
    assert_eq!(c.feed(&zhong, false), Some(41 + 7));
    // Level 1 without bonus.
    let guo = bytes_of(encoding_rs::GBK, "国");
    assert_eq!(guo, [0xB9, 0xFA]);
    assert_eq!(c.feed(&guo, false), Some(41));
    // Level 2.
    let chu = bytes_of(encoding_rs::GBK, "亍");
    assert_eq!(chu, [0xD8, 0xA1]);
    assert_eq!(c.feed(&chu, false), Some(20));
    // Outside the EUC range.
    let kao = bytes_of(encoding_rs::GBK, "丂");
    assert_eq!(kao, [0x81, 0x40]);
    assert_eq!(c.feed(&kao, true), Some(5));
}

#[test]
fn gbk_latin_adjacency_and_punctuation() {
    let table = frequent("的中");
    let bytes = bytes_of(encoding_rs::GBK, "中a国。！ b");
    let mut c = GbkCandidate::new(table);
    // 中 48, a after it -40, 国 after a 41 - 40, two marks of punctuation 20
    // each, and nothing for the space and the letter after it.
    assert_eq!(c.feed(&bytes, true), Some(48 - 40 + 41 - 40 + 20 + 20));
}

#[test]
fn gbk_lead_and_trail_in_two_buffers() {
    let table = frequent("的中");
    let mut c = GbkCandidate::new(table);
    assert_eq!(c.feed(&[0xD6], false), Some(0));
    assert_eq!(c.feed(&[0xD0], false), Some(48));
}

#[test]
fn gbk_rejects_malformed() {
    let table = frequent("");
    let mut c = GbkCandidate::new(table);
    assert_eq!(c.feed(b"ab\xFFcd", false), None);
    // A lead byte that the end of the stream leaves alone.
    let mut d = GbkCandidate::new(table);
    assert_eq!(d.feed(&[0xD6], true), None);
    let mut e = GbkCandidate::new(table);
    assert_eq!(e.feed(b"", true), Some(0));
}

#[test]
fn gbk_units() {
    let table = frequent("的中");
    let mut c = GbkCandidate::new(table);
    assert_eq!(c.score_unit(0xD6, wrote_nothing()), Some(0));
    assert_eq!(c.score_unit(0xD0, wrote(0x4E2D)), Some(48));
    // An ideograph beyond the unified block scores as one outside the EUC
    // range, whatever its bytes.
    assert_eq!(c.score_unit(0xA1, wrote(0x3500)), Some(5));
    assert_eq!(c.score_unit(0xA1, wrote(0xF900)), Some(5));
    // Private use: the code points that GB18030 needs, and the others.
    assert_eq!(c.score_unit(0xA1, wrote(0xE78D)), Some(5));
    assert_eq!(c.score_unit(0xA1, wrote(0xE864)), Some(5));
    assert_eq!(c.score_unit(0xA1, wrote(0xE000)), Some(-410));
    assert_eq!(c.score_unit(0xA1, wrote(0xE797)), Some(-410));
    // Beyond the basic plane, by the first of two code units.
    assert_eq!(c.score_unit(0x30, wrote_pair(0xD840)), Some(5));
    assert_eq!(c.score_unit(0x30, wrote_pair(0xDB80)), Some(-410));
    assert_eq!(c.score_unit(0x30, wrote_pair(0xD83D)), Some(5));
    assert_eq!(c.score_unit(0x30, wrote_pair(0xD900)), Some(5));
    // After a letter.
    assert_eq!(c.score_unit(b'a', wrote(b'a' as u16)), Some(0));
    assert_eq!(c.score_unit(0x30, wrote_pair(0xD840)), Some(5 - 40));
    assert_eq!(c.score_unit(b'a', wrote(b'a' as u16)), Some(-40));
    // Other characters.
    assert_eq!(c.score_unit(0xA1, wrote(0x00E4)), Some(5));
    assert_eq!(c.score_unit(b'1', wrote(b'1' as u16)), Some(0));
    // Anything but the end of the input rejects.
    let malformed = Decoded { status: DecodeStatus::Malformed, written: 0, first: 0 };
    assert_eq!(c.score_unit(0xFF, malformed), None);
    let full = Decoded { status: DecodeStatus::OutputFull, written: 0, first: 0 };
    assert_eq!(c.score_unit(0xA1, full), None);
}

#[test]
fn shift_jis_kanji_and_kana() {
    let table = frequent("日本");
    let nihon = bytes_of(encoding_rs::SHIFT_JIS, "日本");
    assert_eq!(nihon, [0x93, 0xFA, 0x96, 0x7B]);
    let mut c = ShiftJisCandidate::new(table);
    assert_eq!(c.feed(&nihon, false), Some(41 + 8 + 41 + 7));
    let kana = bytes_of(encoding_rs::SHIFT_JIS, "あ");
    assert_eq!(c.feed(&kana, false), Some(20));
    // A kanji of the second level.
    let level2 = bytes_of(encoding_rs::SHIFT_JIS, "弌");
    assert_eq!(level2, [0x98, 0x9F]);
    assert_eq!(c.feed(&level2, false), Some(20));
    // Half-width katakana after other Japanese text.
    assert_eq!(c.feed(&[0xB1], false), Some(-123));
    // Punctuation, then a letter.
    let stop = bytes_of(encoding_rs::SHIFT_JIS, "。a");
    assert_eq!(c.feed(&stop, true), Some(20));
}

#[test]
fn shift_jis_rejects_half_width_katakana_at_the_start() {
    let table = frequent("");
    let mut c = ShiftJisCandidate::new(table);
    assert_eq!(c.feed(b"abc \xB1", false), None);
    let mut d = ShiftJisCandidate::new(table);
    assert_eq!(d.feed(b"\xFD", false), None);
}

#[test]
fn shift_jis_holds_back_after_0x92() {
    let table = frequent("");
    // The kanji with the lead byte 0x92 is held back; a letter after it
    // drops it.
    let mut c = ShiftJisCandidate::new(table);
    assert_eq!(c.feed(&[0x92, 0x73], false), Some(0));
    assert_eq!(c.feed(b"a", false), Some(-40));
    // A kana after it releases it.
    let mut d = ShiftJisCandidate::new(table);
    assert_eq!(d.feed(&[0x92, 0x73], false), Some(0));
    let kana = bytes_of(encoding_rs::SHIFT_JIS, "あ");
    assert_eq!(d.feed(&kana, false), Some(41 + 20));
    // After Japanese text it is not held back.
    let mut e = ShiftJisCandidate::new(table);
    let mut bytes = bytes_of(encoding_rs::SHIFT_JIS, "あ");
    bytes.extend_from_slice(&[0x92, 0x73]);
    assert_eq!(e.feed(&bytes, false), Some(20 + 41));
}

#[test]
fn shift_jis_pending_by_hand() {
    let table = frequent("");
    let mut c = ShiftJisCandidate::new(table);
    assert_eq!(c.maybe_set_as_pending(41), 41);
    assert_eq!(c.score_unit(0x92, wrote_nothing()), Some(0));
    assert_eq!(c.maybe_set_as_pending(41), 0);
    // The score that is held back is paid out with the next kanji, whose
    // own score is held back in turn, its lead byte being 0x92 too.
    assert_eq!(c.score_unit(0x40, wrote(0x4E00)), Some(41));
    // A kana pays that out as well.
    assert_eq!(c.score_unit(0xA0, wrote(0x3042)), Some(41 + 20));
}

#[test]
fn shift_jis_units() {
    let table = frequent("");
    let mut c = ShiftJisCandidate::new(table);
    assert_eq!(c.score_unit(0xF0, wrote_nothing()), Some(0));
    assert_eq!(c.score_unit(0x40, wrote(0xE000)), Some(-410));
    assert_eq!(c.score_unit(0x40, wrote(0xFF01)), Some(5));
    assert_eq!(c.score_unit(0x40, wrote(0x3000)), Some(20));
    let malformed = Decoded { status: DecodeStatus::Malformed, written: 0, first: 0 };
    assert_eq!(c.score_unit(0x40, malformed), None);
}

#[test]
fn euc_jp_kanji_and_kana() {
    let table = frequent("日本");
    let nihon = bytes_of(encoding_rs::EUC_JP, "日本");
    assert_eq!(nihon, [0xC6, 0xFC, 0xCB, 0xDC]);
    let mut c = EucJpCandidate::new(table);
    assert_eq!(c.feed(&nihon, false), Some(41 + 8 + 41 + 7));
    let kana = bytes_of(encoding_rs::EUC_JP, "あゐ");
    assert_eq!(c.feed(&kana, false), Some(54 + 40));
    let level2 = bytes_of(encoding_rs::EUC_JP, "弌");
    assert_eq!(level2, [0xD0, 0xA1]);
    assert_eq!(c.feed(&level2, false), Some(20));
    // A kanji of the supplementary plane, after its prefix.
    assert_eq!(c.feed(&[0x8F, 0xB0, 0xA1], false), Some(5));
    // Half-width katakana later in the text, then a letter.
    assert_eq!(c.feed(&[0x8E, 0xB1, b'a'], true), Some(-123));
}

#[test]
fn euc_jp_initial_kana() {
    let table = frequent("");
    let kana = bytes_of(encoding_rs::EUC_JP, "あい");
    let mut c = EucJpCandidate::new(table);
    assert_eq!(c.feed(&kana, true), Some(-14 + 54 + 54));
}

#[test]
fn euc_jp_rejects() {
    let table = frequent("");
    let mut c = EucJpCandidate::new(table);
    assert_eq!(c.feed(&[b'a', 0x8E, 0xB1], false), None);
    let mut d = EucJpCandidate::new(table);
    assert_eq!(d.feed(&[0xC6, 0x41], false), None);
    let mut e = EucJpCandidate::new(table);
    assert_eq!(e.feed(&[0xC6], true), None);
}

#[test]
fn euc_jp_units() {
    let table = frequent("");
    let mut c = EucJpCandidate::new(table);
    assert_eq!(c.score_unit(b'a', wrote(b'a' as u16)), Some(0));
    assert_eq!(c.score_unit(0xA4, wrote_nothing()), Some(0));
    // The first character outside ASCII: a kana after a letter.
    assert_eq!(c.score_unit(0xA2, wrote(0x3042)), Some(-14 + 54 - 40));
    assert_eq!(c.score_unit(0xA2, wrote(0x30F1)), Some(40));
    assert_eq!(c.score_unit(b'b', wrote(b'b' as u16)), Some(-40));
    assert_eq!(c.score_unit(0xA2, wrote(0xFF08)), Some(20));
    assert_eq!(c.score_unit(0xA2, wrote(0xFF01)), Some(5));
    let full = Decoded { status: DecodeStatus::OutputFull, written: 0, first: 0 };
    assert_eq!(c.score_unit(0xA2, full), None);
}

#[test]
fn big5_levels() {
    let zhong = bytes_of(encoding_rs::BIG5, "中國");
    assert_eq!(zhong, [0xA4, 0xA4, 0xB0, 0xEA]);
    let mut c = Big5Candidate::new();
    assert_eq!(c.feed(&zhong, false), Some(41 + 41));
    let rare = bytes_of(encoding_rs::BIG5, "乂");
    assert_eq!(rare, [0xC9, 0x40]);
    assert_eq!(c.feed(&rare, false), Some(20));
    let marks = bytes_of(encoding_rs::BIG5, "，a中");
    assert_eq!(c.feed(&marks, true), Some(20 + 41 - 40));
}

#[test]
fn big5_two_code_units() {
    // 0x8862 decodes to a Latin letter and a combining mark.
    let mut c = Big5Candidate::new();
    assert_eq!(c.feed(&[0x88, 0x62], true), Some(5));
    let mut d = Big5Candidate::new();
    assert_eq!(d.score_unit(0x62, wrote_pair(0xEA)), Some(5));
    assert_eq!(d.score_unit(b'a', wrote(b'a' as u16)), Some(0));
    assert_eq!(d.score_unit(0x62, wrote_pair(0xD840)), Some(20 - 40));
}

#[test]
fn big5_rejects() {
    let mut c = Big5Candidate::new();
    assert_eq!(c.feed(&[0xA4, 0x20], false), None);
    let mut d = Big5Candidate::new();
    assert_eq!(d.feed(&[0xA4], true), None);
    let mut e = Big5Candidate::new();
    assert_eq!(e.feed(&[0xFF], false), None);
}

#[test]
fn euc_kr_hangul() {
    let table = frequent("한");
    let hanguk = bytes_of(encoding_rs::EUC_KR, "한국");
    assert_eq!(hanguk, [0xC7, 0xD1, 0xB1, 0xB9]);
    let mut c = EucKrCandidate::new(table);
    assert_eq!(c.feed(&hanguk, false), Some(42 + 8 + 42));
    // A syllable of the extension.
    let mut d = EucKrCandidate::new(table);
    assert_eq!(d.feed(&[0x81, 0x41], false), Some(4));
    // A letter after a syllable, and a syllable after a letter.
    let mut e = EucKrCandidate::new(table);
    let mixed = bytes_of(encoding_rs::EUC_KR, "국a국 국");
    assert_eq!(e.feed(&mixed, true), Some(42 - 40 + 42 - 40 + 42));
}

#[test]
fn euc_kr_hanja() {
    let table = frequent("");
    let han = bytes_of(encoding_rs::EUC_KR, "韓");
    let mut c = EucKrCandidate::new(table);
    assert_eq!(c.feed(&han, false), Some(10));
    assert_eq!(c.feed(&han, false), Some(10));
    let after = bytes_of(encoding_rs::EUC_KR, "국韓");
    let mut d = EucKrCandidate::new(table);
    assert_eq!(d.feed(&after, true), Some(42 + 10 - 410));
}

#[test]
fn euc_kr_long_words() {
    let table = frequent("");
    let word = bytes_of(encoding_rs::EUC_KR, "국국국국국국국");
    let mut c = EucKrCandidate::new(table);
    // The sixth and the seventh syllable are one too many each.
    assert_eq!(c.feed(&word, false), Some(7 * 42 - 2 * 6));
    // A space ends the word.
    let two = bytes_of(encoding_rs::EUC_KR, " 국국");
    assert_eq!(c.feed(&two, true), Some(2 * 42));
}

#[test]
fn euc_kr_rejects() {
    let table = frequent("");
    let mut c = EucKrCandidate::new(table);
    assert_eq!(c.feed(&[0xC7, 0x20], false), None);
    let mut d = EucKrCandidate::new(table);
    assert_eq!(d.feed(&[0xC7], true), None);
    let mut e = EucKrCandidate::new(table);
    assert_eq!(e.score_unit(0xD1, wrote(0x00E4)), Some(5));
    assert_eq!(e.score_unit(b'1', wrote(b'1' as u16)), Some(0));
}

#[test]
fn decoding_candidates_by_discipline() {
    let table = frequent("日本");
    let nihon = bytes_of(encoding_rs::SHIFT_JIS, "日本");
    let mut shift = Candidate::new_shift_jis(table);
    assert_eq!(shift.encoding(), EncodingId::ShiftJis);
    shift.feed(&nihon, false);
    assert_eq!(shift.score(), Some(97));
    shift.feed(&nihon, true);
    assert_eq!(shift.score(), Some(194));

    let mut euc_jp = Candidate::new_euc_jp(table);
    assert_eq!(euc_jp.encoding(), EncodingId::EucJp);
    euc_jp.feed(&bytes_of(encoding_rs::EUC_JP, "日本"), true);
    assert_eq!(euc_jp.score(), Some(97));

    let mut euc_kr = Candidate::new_euc_kr(frequent("한"));
    assert_eq!(euc_kr.encoding(), EncodingId::EucKr);
    euc_kr.feed(&bytes_of(encoding_rs::EUC_KR, "한국"), true);
    assert_eq!(euc_kr.score(), Some(92));

    let mut big5 = Candidate::new_big5();
    assert_eq!(big5.encoding(), EncodingId::Big5);
    big5.feed(&bytes_of(encoding_rs::BIG5, "中國"), true);
    assert_eq!(big5.score(), Some(82));

    let mut gbk = Candidate::new_gbk(frequent("的中"));
    assert_eq!(gbk.encoding(), EncodingId::Gbk);
    gbk.feed(&bytes_of(encoding_rs::GBK, "中国"), true);
    assert_eq!(gbk.score(), Some(89));
    assert!(gbk.is_live());

    let mut utf8 = Candidate::new_utf_8();
    assert_eq!(utf8.encoding(), EncodingId::Utf8);
    utf8.feed("日本".as_bytes(), false);
    assert_eq!(utf8.score(), Some(0));
    utf8.feed(b"\xFF", false);
    assert_eq!(utf8.score(), None);
    utf8.feed(b"abc", false);
    assert_eq!(utf8.score(), None);
    assert!(!utf8.is_live());
}
