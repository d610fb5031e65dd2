use charset_normalizer_rs::assets::{
    EncodingLanguages, EncodingMark, LanguageEntry, SimilarEncodings, Tables, UnicodeRange,
};
use charset_normalizer_rs::cache::{Classifier, PredicateCache};
use charset_normalizer_rs::cli::{check_options, normalized_file_name};
use charset_normalizer_rs::cd::{
    coherence_ratio, encoding_languages, mb_encoding_languages, merge_coherence_ratios,
};
use charset_normalizer_rs::codec::{DecoderTrap, EncoderTrap};
use charset_normalizer_rs::entity::{CharsetMatch, CharsetMatches, CoherenceMatch, NormalizerSettings};
use charset_normalizer_rs::md::mess_ratio;
use charset_normalizer_rs::rank::rank_descending;
use charset_normalizer_rs::ratio::{ratio_of, ratio_wide};
use charset_normalizer_rs::chars::{
    is_accentuated,
    is_ascii,
    is_case_variable,
    is_cjk,
    is_emoticon,
    is_hangul,
    is_hiragana,
    is_katakana,
    is_latin,
    is_punctuation,
    is_separator,
    is_symbol,
    is_thai,
    is_unprintable,
    remove_accent,
};
use charset_normalizer_rs::declared::any_specified_encoding;
use charset_normalizer_rs::ranges::{
    is_suspiciously_successive_range,
    is_unicode_range_secondary,
    range_scan,
    split_words,
    unicode_range,
};
use charset_normalizer_rs::utils::{
    concatenate_slices,
    cp_similarity,
    decode,
    encode,
    get_language_data,
    iana_name,
    identify_sig_or_bom,
    is_cp_similar,
    is_multi_byte_encoding,
    should_strip_sig_or_bom,
    DecodeTestResult,
};

fn names(list: &[&str]) -> Vec<String> {
    list.iter().map(|s| s.to_string()).collect()
}

fn range(name: &str, first: u32, last: u32) -> UnicodeRange {
    UnicodeRange { name: name.to_string(), first, last }
}

fn language(name: &str, alphabet: &str) -> LanguageEntry {
    LanguageEntry {
        language: name.to_string(),
        alphabet: alphabet.to_string(),
        has_accents: !alphabet.is_ascii(),
        pure_latin: true,
    }
}

fn tables() -> Tables {
    Tables {
        iana_supported: names(&["ascii", "utf-8", "utf-16le", "windows-1252", "windows-1251", "hz"]),
        similar: vec![SimilarEncodings {
            encoding: "windows-1252".to_string(),
            similar: names(&["iso-8859-15", "windows-1254"]),
        }],
        marks: vec![
            EncodingMark { encoding: "utf-8".to_string(), signature: vec![0xEF, 0xBB, 0xBF] },
            EncodingMark { encoding: "utf-16le".to_string(), signature: vec![0xFF, 0xFE] },
            EncodingMark { encoding: "utf-16be".to_string(), signature: vec![0xFE, 0xFF] },
        ],
        ranges: vec![
            range("Control character", 0x0000, 0x001F),
            range("Basic Latin", 0x0020, 0x007F),
            range("Latin-1 Supplement", 0x0080, 0x00FF),
            range("Latin Extended-A", 0x0100, 0x017F),
            range("Combining Diacritical Marks", 0x0300, 0x036F),
            range("Cyrillic", 0x0400, 0x04FF),
            range("General Punctuation", 0x2000, 0x206F),
            range("Mathematical Operators", 0x2200, 0x22FF),
            range("CJK Symbols and Punctuation", 0x3000, 0x303F),
            range("Hiragana", 0x3040, 0x309F),
            range("Katakana", 0x30A0, 0x30FF),
            range("CJK Unified Ideographs", 0x4E00, 0x9FFF),
            range("Hangul Syllables", 0xAC00, 0xD7AF),
            range("Halfwidth and Fullwidth Forms", 0xFF00, 0xFFEF),
            range("Emoticons range(Emoji)", 0x1F600, 0x1F64F),
        ],
        secondary_keywords: names(&["Supplement", "Extended", "Punctuation", "Symbols", "Forms"]),
        languages: vec![
            language("English", "eationsrhldcmufpgwbyvkjxzq"),
            language("French", "eaistnrulodmcpévgfbhqàxèyj"),
            language("Tiny", "xyz"),
        ],
        encoding_languages: vec![EncodingLanguages {
            encoding: "windows-1252".to_string(),
            languages: names(&["English", "French"]),
        }],
        mb_encoding_languages: vec![EncodingLanguages {
            encoding: "shift_jis".to_string(),
            languages: names(&["Japanese"]),
        }],
    }
}

#[test]
fn range_of_a_character_holds_it() {
    let tables = tables();
    for ch in "a\u{e9}\u{416}\u{3042}\u{4e2d}\u{1F600}\t".chars() {
        let found = unicode_range(&ch, &tables).unwrap();
        let entry = tables.ranges.iter().find(|r| r.name == found).unwrap();
        assert!(entry.first <= ch as u32 && ch as u32 <= entry.last);
    }
    assert_eq!(unicode_range(&'a', &tables), Some("Basic Latin"));
    assert_eq!(unicode_range(&'\u{e9}', &tables), Some("Latin-1 Supplement"));
    assert_eq!(unicode_range(&'\t', &tables), Some("Control character"));
    assert_eq!(unicode_range(&'\u{590}', &tables), None);
    assert_eq!(unicode_range(&'\u{10FFFF}', &tables), None);
}

#[test]
fn first_range_of_the_table_wins() {
    let mut tables = tables();
    tables.ranges.insert(0, range("Everything", 0, 0x10FFFF));
    assert_eq!(unicode_range(&'a', &tables), Some("Everything"));
}

#[test]
fn range_scan_lists_each_range_once() {
    let tables = tables();
    let found = range_scan("ab\u{e9}cd \u{416}\u{e9}", &tables);
    assert_eq!(found, names(&["Basic Latin", "Latin-1 Supplement", "Cyrillic"]));
    assert!(range_scan("", &tables).is_empty());
    assert!(range_scan("\u{590}", &tables).is_empty());
}

#[test]
fn secondary_ranges_are_told_by_keyword() {
    let tables = tables();
    assert!(is_unicode_range_secondary("Latin-1 Supplement".to_string(), &tables));
    assert!(is_unicode_range_secondary("CJK Symbols and Punctuation".to_string(), &tables));
    assert!(!is_unicode_range_secondary("Basic Latin".to_string(), &tables));
}

#[test]
fn suspicious_succession_follows_the_rules() {
    let t = tables();
    let s = |a: Option<&str>, b: Option<&str>| is_suspiciously_successive_range(a, b, &t);
    assert!(s(None, Some("Basic Latin")));
    assert!(s(Some("Basic Latin"), None));
    assert!(s(None, None));
    assert!(!s(Some("Cyrillic"), Some("Cyrillic")));
    assert!(!s(Some("Basic Latin"), Some("Latin-1 Supplement")));
    assert!(!s(Some("Emoticons range(Emoji)"), Some("Cyrillic")));
    assert!(!s(Some("Basic Latin"), Some("Combining Diacritical Marks")));
    assert!(s(Some("Cyrillic"), Some("Combining Diacritical Marks")));
    assert!(!s(Some("Hiragana"), Some("Katakana")));
    assert!(!s(Some("Hiragana"), Some("CJK Unified Ideographs")));
    assert!(!s(Some("Hangul Syllables"), Some("CJK Unified Ideographs")));
    assert!(!s(Some("Hangul Syllables"), Some("Basic Latin")));
    assert!(s(Some("Hangul Syllables"), Some("Cyrillic")));
    assert!(!s(Some("CJK Unified Ideographs"), Some("General Punctuation")));
    assert!(!s(Some("CJK Unified Ideographs"), Some("Halfwidth and Fullwidth Forms")));
    assert!(!s(Some("CJK Unified Ideographs"), Some("CJK Symbols and Punctuation")));
    assert!(s(Some("Basic Latin"), Some("Cyrillic")));
    assert!(s(Some("CJK Symbols and Punctuation"), Some("Cyrillic")));
    assert!(s(Some("Mathematical Operators"), Some("Cyrillic")));
}

#[test]
fn shared_secondary_keyword_does_not_make_a_family() {
    let t = tables();
    assert!(is_suspiciously_successive_range(
        Some("General Punctuation"),
        Some("Supplemental Punctuation"),
        &t
    ));
    assert!(!is_suspiciously_successive_range(
        Some("Cyrillic"),
        Some("Cyrillic Supplement"),
        &t
    ));
}

#[test]
fn suspicious_succession_is_symmetric() {
    let t = tables();
    let all: Vec<Option<&str>> = std::iter::once(None)
        .chain(t.ranges.iter().map(|r| Some(r.name.as_str())))
        .collect();
    for a in &all {
        for b in &all {
            assert_eq!(
                is_suspiciously_successive_range(*a, *b, &t),
                is_suspiciously_successive_range(*b, *a, &t)
            );
        }
    }
}

#[test]
fn words_are_parted_by_white_space() {
    let text: Vec<char> = "  CJK Symbols\tand  Punctuation ".chars().collect();
    let words: Vec<String> = split_words(&text).iter().map(|w| w.iter().collect()).collect();
    assert_eq!(words, names(&["CJK", "Symbols", "and", "Punctuation"]));
    assert!(split_words(&[]).is_empty());
    assert!(split_words(&[' ', '\n']).is_empty());
}

#[test]
fn character_predicates() {
    let t = tables();
    assert!(is_punctuation(&'!', &t));
    assert!(is_punctuation(&'\u{3002}', &t));
    assert!(!is_punctuation(&'a', &t));
    assert!(is_symbol(&'+', &t));
    assert!(is_symbol(&'7', &t));
    assert!(is_symbol(&'\u{FF21}', &t));
    assert!(!is_symbol(&'a', &t));
    assert!(is_emoticon(&'\u{1F600}', &t));
    assert!(!is_emoticon(&'a', &t));
    assert!(is_separator(&' ', &t));
    assert!(is_separator(&'\u{FF5C}', &t));
    assert!(is_separator(&'+', &t));
    assert!(is_separator(&'<', &t));
    assert!(is_separator(&'>', &t));
    assert!(is_separator(&',', &t));
    assert!(is_separator(&'-', &t));
    assert!(is_separator(&'_', &t));
    assert!(!is_separator(&'a', &t));
    assert!(!is_separator(&'(', &t));
    assert!(is_unprintable(&'\u{0}', &t));
    assert!(is_unprintable(&'\u{7F}', &t));
    assert!(!is_unprintable(&'\n', &t));
    assert!(!is_unprintable(&'\u{1A}', &t));
    assert!(!is_unprintable(&'\u{FEFF}', &t));
    assert!(!is_unprintable(&'a', &t));
    assert!(is_accentuated(&'\u{e9}'));
    assert!(is_accentuated(&'\u{e7}'));
    assert!(is_accentuated(&'\u{f1}'));
    assert!(!is_accentuated(&'e'));
    assert!(!is_accentuated(&'\u{e5}'));
    assert!(is_latin(&'a'));
    assert!(is_latin(&'\u{e9}'));
    assert!(!is_latin(&'\u{416}'));
    assert!(is_cjk(&'\u{4e2d}'));
    assert!(!is_cjk(&'a'));
    assert!(is_hiragana(&'\u{3042}'));
    assert!(is_katakana(&'\u{30A2}'));
    assert!(is_hangul(&'\u{AC00}'));
    assert!(is_thai(&'\u{E01}'));
    assert!(!is_thai(&'a'));
    assert!(is_case_variable(&'a'));
    assert!(is_case_variable(&'A'));
    assert!(!is_case_variable(&'1'));
    assert!(!is_case_variable(&'\u{4e2d}'));
    assert!(is_ascii(&'\u{7F}'));
    assert!(!is_ascii(&'\u{80}'));
}

#[test]
fn accents_are_removed() {
    assert_eq!(remove_accent(&'\u{e9}'), 'e');
    assert_eq!(remove_accent(&'\u{c7}'), 'C');
    assert_eq!(remove_accent(&'e'), 'e');
    assert_eq!(remove_accent(&'\u{416}'), '\u{416}');
    assert_eq!(remove_accent(&'\u{1EA5}'), 'a');
}

#[test]
fn multi_byte_encodings_are_named() {
    for name in [
        "utf-8", "utf-16le", "utf-16be", "euc-jp", "euc-kr", "iso-2022-jp", "gbk", "gb18030", "hz",
        "big5", "shift_jis",
    ] {
        assert!(is_multi_byte_encoding(name));
    }
    assert!(!is_multi_byte_encoding("windows-1252"));
    assert!(!is_multi_byte_encoding("ascii"));
    assert!(!is_multi_byte_encoding("UTF-8"));
    assert!(!is_multi_byte_encoding(""));
    assert!(should_strip_sig_or_bom("utf-8"));
    assert!(should_strip_sig_or_bom("utf-16le"));
}

#[test]
fn signatures_are_identified() {
    let t = tables();
    let (name, sig) = identify_sig_or_bom(&[0xEF, 0xBB, 0xBF, b'h'], &t);
    assert_eq!(name.as_deref(), Some("utf-8"));
    assert_eq!(sig, Some(&[0xEFu8, 0xBB, 0xBF][..]));
    let (name, sig) = identify_sig_or_bom(&[0xFE, 0xFF], &t);
    assert_eq!(name.as_deref(), Some("utf-16be"));
    assert_eq!(sig, Some(&[0xFEu8, 0xFF][..]));
    assert_eq!(identify_sig_or_bom(&[0xEF, 0xBB], &t), (None, None));
    assert_eq!(identify_sig_or_bom(&[], &t), (None, None));
    assert_eq!(identify_sig_or_bom(b"hello", &t), (None, None));
}

#[test]
fn names_are_resolved() {
    let t = tables();
    assert_eq!(iana_name("utf-8", &t).as_deref(), Some("utf-8"));
    assert_eq!(iana_name("hz", &t).as_deref(), Some("hz"));
    assert_eq!(iana_name("UTF8", &t).as_deref(), Some("utf-8"));
    assert_eq!(iana_name("latin1", &t).as_deref(), Some("windows-1252"));
    assert_eq!(iana_name("us-ascii", &t).as_deref(), Some("windows-1252"));
    assert_eq!(iana_name("sjis", &t).as_deref(), Some("shift_jis"));
    assert_eq!(iana_name(" koi8 ", &t).as_deref(), Some("koi8-r"));
    assert_eq!(iana_name("no-such-encoding", &t), None);
    assert_eq!(iana_name("", &t), None);
}

#[test]
fn similar_encodings_are_told_by_the_table() {
    let t = tables();
    assert!(is_cp_similar("windows-1252", "iso-8859-15", &t));
    assert!(is_cp_similar("windows-1252", "windows-1254", &t));
    assert!(!is_cp_similar("iso-8859-15", "windows-1252", &t));
    assert!(!is_cp_similar("windows-1252", "utf-8", &t));
    assert!(!is_cp_similar("utf-8", "utf-8", &t));
}

#[test]
fn similarity_of_code_pages() {
    assert_eq!(cp_similarity("windows-1252", "windows-1252"), 100_000);
    assert_eq!(cp_similarity("utf-8", "windows-1252"), 0);
    assert_eq!(cp_similarity("windows-1252", "big5"), 0);
    assert_eq!(cp_similarity("windows-1252", "no-such-encoding"), 0);
    let same: usize = (1u8..255)
        .filter(|b| {
            encoding::Encoding::decode(encoding::all::WINDOWS_1252, &[*b], encoding::DecoderTrap::Ignore)
                == encoding::Encoding::decode(encoding::all::WINDOWS_1251, &[*b], encoding::DecoderTrap::Ignore)
        })
        .count();
    assert_eq!(cp_similarity("windows-1252", "windows-1251") as usize, same * 100_000 / 254);
    assert!(cp_similarity("windows-1252", "windows-1251") < 100_000);
    assert!(cp_similarity("windows-1252", "windows-1251") >= 50_000);
}

#[test]
fn declared_encodings_are_found() {
    let t = tables();
    let find = |text: &[u8]| any_specified_encoding(text, 4096, &t);
    assert_eq!(find(b"<meta charset=\"utf-8\">").as_deref(), Some("utf-8"));
    assert_eq!(find(b"<?xml version=\"1.0\" encoding='UTF-8'?>").as_deref(), Some("utf-8"));
    assert_eq!(find(b"# -*- coding: latin1 -*-").as_deref(), Some("windows-1252"));
    assert_eq!(find(b"CHARSET = koi8-r;").as_deref(), Some("koi8-r"));
    assert_eq!(find(b"charset=shift_jis").as_deref(), Some("shift_jis"));
    assert_eq!(find(b"charset=nothing charset=utf-8").as_deref(), Some("utf-8"));
    assert_eq!(find(b"ch\xFFarset=ut\xFEf-8").as_deref(), Some("utf-8"));
    assert_eq!(find(b"charset utf-8").as_deref(), Some("utf-8"));
    assert_eq!(find(b"charset=\"\"utf-8"), None);
    // ten separators at most
    assert_eq!(find(b"charset:          utf-8"), None);
    assert_eq!(find(b"charset:         utf-8").as_deref(), Some("utf-8"));
    assert_eq!(find(b"charsetutf-8"), None);
    assert_eq!(find(b"charset="), None);
    assert_eq!(find(b"no declaration here"), None);
    assert_eq!(find(b""), None);
    assert_eq!(any_specified_encoding(b"          charset=utf-8", 16, &t), None);
    assert_eq!(any_specified_encoding(b"charset=utf-8", 0, &t), None);
    assert_eq!(any_specified_encoding(b"charset=utf-8 and more", 13, &t).as_deref(), Some("utf-8"));
}

#[test]
fn decoding_gives_text_or_the_cause() {
    assert_eq!(decode(b"caf\xE9", "windows-1252", DecoderTrap::Strict, false, false), Ok("caf\u{e9}".to_string()));
    assert_eq!(decode(b"caf\xC3\xA9", "utf-8", DecoderTrap::Strict, false, false), Ok("caf\u{e9}".to_string()));
    assert_eq!(decode(b"", "utf-8", DecoderTrap::Strict, false, false), Ok(String::new()));
    assert_eq!(decode(b"caf\xE9", "windows-1252", DecoderTrap::Strict, true, false), Ok(String::new()));
    assert_eq!(
        decode(b"caf\xE9", "utf-8", DecoderTrap::Strict, false, false),
        Err("incomplete sequence".to_string())
    );
    assert_eq!(
        decode(b"\xFFabc", "utf-8", DecoderTrap::Strict, false, false),
        Err("invalid sequence".to_string())
    );
    assert_eq!(decode(b"a\xFFb", "utf-8", DecoderTrap::Replace, false, false), Ok("a\u{fffd}b".to_string()));
    assert_eq!(decode(b"a\xFFb", "utf-8", DecoderTrap::Ignore, false, false), Ok("ab".to_string()));
    assert_eq!(
        decode(b"abc", "no-such-encoding", DecoderTrap::Strict, false, false),
        Err("Encoding 'no-such-encoding' not found".to_string())
    );
}

#[test]
fn chunks_are_repaired_at_their_ends() {
    let text = "\u{e9}t\u{e9}".as_bytes();
    assert_eq!(text, &[0xC3, 0xA9, 0x74, 0xC3, 0xA9]);
    // cut inside the first and inside the last character
    let chunk = &text[1..4];
    assert_eq!(decode(chunk, "utf-8", DecoderTrap::Strict, false, false), Err("invalid sequence".to_string()));
    assert_eq!(decode(chunk, "utf-8", DecoderTrap::Strict, false, true), Ok("t".to_string()));
    assert_eq!(decode(&text[..4], "utf-8", DecoderTrap::Strict, false, true), Ok("\u{e9}t".to_string()));
    assert_eq!(decode(&text[1..], "utf-8", DecoderTrap::Strict, false, true), Ok("t\u{e9}".to_string()));
    // a single-byte encoding is never repaired
    assert_eq!(
        decode(b"\x81", "windows-1255", DecoderTrap::Strict, false, true),
        decode(b"\x81", "windows-1255", DecoderTrap::Strict, false, false)
    );
    // no more than three bytes are dropped from one side
    assert_eq!(
        decode(b"\xFF\xFF\xFF\xFFabc", "utf-8", DecoderTrap::Strict, false, true),
        Err("invalid sequence".to_string())
    );
    assert_eq!(decode(b"\xFF\xFF\xFFabc", "utf-8", DecoderTrap::Strict, false, true), Ok("abc".to_string()));
    // the window may not become empty
    assert_eq!(decode(b"\xFF", "utf-8", DecoderTrap::Strict, false, true), Err("invalid sequence".to_string()));
    // other traps do not repair
    assert_eq!(decode(chunk, "utf-8", DecoderTrap::Ignore, false, true), Ok("t".to_string()));
    assert_eq!(decode(chunk, "utf-8", DecoderTrap::Replace, false, true), Ok("\u{fffd}t\u{fffd}".to_string()));
}

#[test]
fn encoding_gives_bytes_or_the_cause() {
    assert_eq!(encode("caf\u{e9}", "windows-1252", EncoderTrap::Strict), Ok(b"caf\xE9".to_vec()));
    assert_eq!(encode("caf\u{e9}", "utf-8", EncoderTrap::Strict), Ok(b"caf\xC3\xA9".to_vec()));
    assert_eq!(
        encode("\u{416}", "windows-1252", EncoderTrap::Strict),
        Err("unrepresentable character".to_string())
    );
    assert_eq!(encode("a\u{416}b", "windows-1252", EncoderTrap::Ignore), Ok(b"ab".to_vec()));
    assert_eq!(encode("a\u{416}b", "windows-1252", EncoderTrap::Replace), Ok(b"a?b".to_vec()));
    assert_eq!(encode("a\u{416}b", "windows-1252", EncoderTrap::NcrEscape), Ok(b"a&#1046;b".to_vec()));
    assert_eq!(
        encode("abc", "no-such-encoding", EncoderTrap::Strict),
        Err("Encoding 'no-such-encoding' not found".to_string())
    );
}

#[test]
fn decoding_sink_keeps_text_unless_it_only_tests() {
    let mut sink = DecodeTestResult::new(false);
    assert_eq!(sink.get_buffer(), "");
    sink.write_str("ab");
    sink.write_char('c');
    sink.write_str("");
    assert_eq!(sink.get_buffer(), "abc");
    let mut sink = DecodeTestResult::new(true);
    sink.write_str("ab");
    sink.write_char('c');
    assert_eq!(sink.get_buffer(), "");
}

#[test]
fn language_data_is_looked_up() {
    let t = tables();
    assert_eq!(
        get_language_data("French", &t),
        Ok(("eaistnrulodmcp\u{e9}vgfbhq\u{e0}x\u{e8}yj".to_string(), true, true))
    );
    assert_eq!(
        get_language_data("English", &t),
        Ok(("eationsrhldcmufpgwbyvkjxzq".to_string(), false, true))
    );
    assert_eq!(get_language_data("Klingon", &t), Err("Language wasn't found".to_string()));
    assert_eq!(encoding_languages("windows-1252", &t), names(&["English", "French"]));
    assert!(encoding_languages("windows-1251", &t).is_empty());
    assert_eq!(mb_encoding_languages("shift_jis", &t), names(&["Japanese"]));
    assert!(mb_encoding_languages("windows-1252", &t).is_empty());
}

#[test]
fn slices_are_joined() {
    assert_eq!(concatenate_slices(&[1, 2], &[3]), vec![1, 2, 3]);
    assert_eq!(concatenate_slices(&[], &[3]), vec![3]);
    assert_eq!(concatenate_slices(&[], &[]), Vec::<u8>::new());
}

#[test]
fn ratios_are_rounded_down_and_capped() {
    assert_eq!(ratio_of(0, 10), 0);
    assert_eq!(ratio_of(1, 3), 33_333);
    assert_eq!(ratio_of(2, 3), 66_666);
    assert_eq!(ratio_of(1, 4), 25_000);
    assert_eq!(ratio_of(10, 10), 100_000);
    assert_eq!(ratio_of(11, 10), 100_000);
    assert_eq!(ratio_of(5, 0), 0);
    assert_eq!(ratio_of(usize::MAX - 1, usize::MAX), 99_999);
    assert_eq!(ratio_wide(16, 1024), 1_562);
}

#[test]
fn ranking_is_stable_and_descending() {
    assert_eq!(rank_descending(&[1, 3, 2, 3, 0]), vec![1, 3, 2, 0, 4]);
    assert_eq!(rank_descending(&[]), Vec::<usize>::new());
    assert_eq!(rank_descending(&[7, 7, 7]), vec![0, 1, 2]);
}

#[test]
fn mess_of_edge_cases() {
    let t = tables();
    assert_eq!(mess_ratio("", None, &t), 0);
    assert_eq!(mess_ratio("a", None, &t), 0);
    assert_eq!(mess_ratio("\u{0}", None, &t), 0);
    assert_eq!(mess_ratio(&" ".repeat(32), None, &t), 0);
    assert_eq!(mess_ratio(&" ".repeat(33), None, &t), 100_000);
    assert_eq!(mess_ratio(&" \n\t".repeat(20), None, &t), 100_000);
    assert_eq!(mess_ratio("hello world", None, &t), 0);
    assert_eq!(mess_ratio("caf\u{e9}", None, &t), 0);
}

#[test]
fn mess_of_each_watch() {
    let t = tables();
    // one symbol beyond ASCII among six characters, weighed twice
    assert_eq!(mess_ratio("ab \u{2200} c", Some(100_000), &t), 33_333);
    // one punctuation mark beyond ASCII among six characters
    assert_eq!(mess_ratio("ab \u{2026} c", Some(100_000), &t), 16_666);
    // next to letters the same symbol also makes two suspicious pairs of three
    assert_eq!(mess_ratio("ab\u{2200}c", Some(100_000), &t), 66_666);
    // accentuated letters: one of four is below the floor, two of four above
    assert_eq!(mess_ratio("caf\u{e9}", Some(100_000), &t), 0);
    assert_eq!(mess_ratio("c\u{e0}f\u{e9}", Some(100_000), &t), 50_000);
    // one control character among sixteen characters, weighed eightfold
    assert_eq!(mess_ratio("abcdefg\u{1}hijklmno", Some(100_000), &t), 50_000);
    // the same letter twice with two accents: a duplicate, and two accents of four letters
    assert_eq!(mess_ratio("\u{e9}\u{e8}ab", Some(100_000), &t), 50_000);
    // one suspicious pair of three
    assert_eq!(mess_ratio("ab\u{416}\u{416}", Some(100_000), &t), 33_333);
    // a CJK character followed by a Latin stop
    assert_eq!(mess_ratio("\u{4e2d}\u{6587}.", Some(100_000), &t), 50_000);
    assert_eq!(mess_ratio("\u{4e2d}\u{6587}\u{3002}", Some(100_000), &t), 33_333);
    // code points beyond the basic plane
    assert_eq!(mess_ratio("a\u{10000}", Some(100_000), &t), 100_000);
    assert_eq!(mess_ratio("a\u{1F600}", Some(100_000), &t), 0);
}

#[test]
fn weird_words_count_from_ten_words_on() {
    let t = tables();
    let nine = "aB cd ef gh ij kl mn op qr";
    let ten = "aB cd ef gh ij kl mn op qr st";
    assert_eq!(mess_ratio(nine, Some(100_000), &t), 0);
    assert_eq!(mess_ratio(ten, Some(100_000), &t), 10_000);
    let signs = "a\u{2200} cd ef gh ij kl mn op qr st";
    assert_eq!(mess_ratio(signs, Some(100_000), &t), 10_000);
}

#[test]
fn mess_reading_stops_early_above_the_threshold() {
    let t = tables();
    // 32 messy characters, then 32 clean ones: the first look sees only mess
    let text = format!("{}{}", "\u{2200}".repeat(32), "a".repeat(33));
    assert_eq!(mess_ratio(&text, Some(20_000), &t), 100_000);
    // without an early stop the clean part counts too
    let late = mess_ratio(&text, Some(100_000), &t);
    assert_eq!(late, (64 * 100_000u64 / 65) as u32);
    assert_eq!(mess_ratio(&text, None, &t), 100_000);
}

#[test]
fn mess_that_passes_stays_the_same_under_a_higher_threshold() {
    let t = tables();
    for text in ["hello world", "caf\u{e9} au lait", "ab\u{416}\u{416} and more text here", "hello \u{2026} there"] {
        let low = mess_ratio(text, Some(20_000), &t);
        assert!(low < 20_000);
        assert_eq!(mess_ratio(text, Some(50_000), &t), low);
        assert_eq!(mess_ratio(text, Some(100_000), &t), low);
    }
}

#[test]
fn coherence_of_a_text() {
    let t = tables();
    let found = coherence_ratio("The cat sat on the mat", Some(10_000), None, &t);
    let listed: Vec<(&str, u32)> = found.iter().map(|m| (m.language.as_str(), m.score)).collect();
    // nine letters, all of them among the 26 of English and of French
    assert_eq!(listed, vec![("English", 34_615), ("French", 34_615)]);
    let found = coherence_ratio("The cat sat on the mat", Some(10_000), Some(names(&["French"])), &t);
    assert_eq!(found.len(), 1);
    assert_eq!(found[0].language, "French");
    assert!(coherence_ratio("The cat sat on the mat", Some(40_000), None, &t).is_empty());
    assert!(coherence_ratio("", None, None, &t).is_empty());
    assert!(coherence_ratio("12345 67890", None, None, &t).is_empty());
    assert!(coherence_ratio("abc", None, Some(vec![]), &t).is_empty());
}

#[test]
fn coherence_counts_only_the_leading_letters() {
    let t = tables();
    // "Tiny" has three letters: only the three most frequent letters of the text count.
    let found = coherence_ratio("xxxx yyy zz aaaaa", Some(0), Some(names(&["Tiny"])), &t);
    assert_eq!(found[0].score, 66_666);
    let found = coherence_ratio("xxxx yyy zz a", Some(0), Some(names(&["Tiny"])), &t);
    assert_eq!(found[0].score, 100_000);
    // accents and case are folded before counting
    let found = coherence_ratio("\u{c9}\u{e9}E e", Some(0), Some(names(&["English"])), &t);
    assert_eq!(found[0].score, 3_846);
}

#[test]
fn coherence_of_chunks_is_averaged() {
    let a = vec![
        CoherenceMatch { language: "English".to_string(), score: 60_000 },
        CoherenceMatch { language: "French".to_string(), score: 50_000 },
    ];
    let b = vec![
        CoherenceMatch { language: "French".to_string(), score: 90_001 },
        CoherenceMatch { language: "German".to_string(), score: 60_000 },
    ];
    let merged = merge_coherence_ratios(&vec![a, b]);
    let listed: Vec<(&str, u32)> = merged.iter().map(|m| (m.language.as_str(), m.score)).collect();
    assert_eq!(listed, vec![("French", 70_000), ("English", 60_000), ("German", 60_000)]);
    assert!(merge_coherence_ratios(&vec![]).is_empty());
    assert!(merge_coherence_ratios(&vec![vec![], vec![]]).is_empty());
}

#[test]
fn matches_with_one_fingerprint_are_merged() {
    let t = tables();
    let none = vec![];
    let first = CharsetMatch::new(b"caf\xE9", "windows-1252", 0, false, &none, Some("caf\u{e9}"));
    let same = CharsetMatch::new(b"caf\xE9", "iso-8859-15", 5, false, &none, Some("caf\u{e9}"));
    let other = CharsetMatch::new(b"caf\xE9", "windows-1251", 0, false, &none, Some("caf\u{439}"));
    assert_eq!(first.fingerprint(), same.fingerprint());
    assert_ne!(first.fingerprint(), other.fingerprint());
    let mut all = CharsetMatches::new(None);
    assert!(all.is_empty());
    assert!(all.get_best().is_none());
    all.append(first);
    all.append(other);
    all.append(same);
    assert_eq!(all.len(), 2);
    let best = all.get_best().unwrap();
    assert_eq!(best.encoding, "windows-1252");
    assert_eq!(best.aliases, names(&["iso-8859-15"]));
    assert_eq!(best.mean_mess_ratio, 0);
    assert_eq!(all.get_by_encoding("iso-8859-15", &t).unwrap().encoding, "windows-1252");
    assert_eq!(all.get_by_encoding("latin1", &t).unwrap().encoding, "windows-1252");
    assert_eq!(all.get_by_encoding("windows-1251", &t).unwrap().encoding, "windows-1251");
    assert!(all.get_by_encoding("utf-8", &t).is_none());
    assert!(all.get_by_encoding("no-such-encoding", &t).is_none());
    let mut prints: Vec<u64> = all.items.iter().map(|m| m.fingerprint()).collect();
    prints.dedup();
    assert_eq!(prints.len(), all.len());
}

#[test]
fn fingerprint_of_a_match_without_text_is_that_of_its_bytes() {
    let none = vec![];
    let a = CharsetMatch::new(b"abc", "windows-1252", 0, false, &none, None);
    let b = CharsetMatch::new(b"abc", "windows-1251", 0, false, &none, None);
    let c = CharsetMatch::new(b"abd", "windows-1252", 0, false, &none, None);
    assert_eq!(a.fingerprint(), b.fingerprint());
    assert_ne!(a.fingerprint(), c.fingerprint());
    // FNV-1a over the bytes
    let mut hash: u64 = 0xcbf2_9ce4_8422_2325;
    for byte in b"abc" {
        hash = (hash ^ *byte as u64).wrapping_mul(0x0000_0100_0000_01b3);
    }
    assert_eq!(a.fingerprint(), hash);
    let long_a = CharsetMatch::new(&[7u8; 2000], "windows-1252", 0, false, &none, None);
    let mut bytes = [7u8; 2000];
    bytes[1500] = 8;
    let long_b = CharsetMatch::new(&bytes, "windows-1252", 0, false, &none, None);
    assert_eq!(long_a.fingerprint(), long_b.fingerprint());
}

#[test]
fn default_settings() {
    let settings = NormalizerSettings::default();
    assert_eq!(settings.steps, 5);
    assert_eq!(settings.chunk_size, 512);
    assert_eq!(settings.threshold, 20_000);
    assert_eq!(settings.language_threshold, 10_000);
    assert!(settings.preemptive_behaviour);
    assert!(settings.enable_fallback);
    assert!(settings.include_encodings.is_empty());
    assert!(settings.exclude_encodings.is_empty());
}

#[test]
fn cached_answers_are_those_of_the_predicates() {
    let t = tables();
    let mut classifier = Classifier::new();
    let text = "a\u{e9}!\u{3002}+ 7\u{4e2d}\u{416}\u{2200}\u{1F600}\u{FF5C}";
    for _ in 0..3 {
        for c in text.chars() {
            assert_eq!(classifier.is_punctuation(&c, &t), is_punctuation(&c, &t));
            assert_eq!(classifier.is_symbol(&c, &t), is_symbol(&c, &t));
            assert_eq!(classifier.is_separator(&c, &t), is_separator(&c, &t));
            assert_eq!(classifier.is_accentuated(&c, &t), is_accentuated(&c));
            assert_eq!(classifier.is_cjk(&c, &t), is_cjk(&c));
        }
    }
    assert!(classifier.is_punctuation(&'!', &t));
    assert!(!classifier.is_punctuation(&'a', &t));
    assert!(classifier.is_accentuated(&'\u{e9}', &t));
    assert!(classifier.is_cjk(&'\u{4e2d}', &t));
}

#[test]
fn a_full_cache_forgets_and_still_answers_right() {
    let t = tables();
    let mut classifier = Classifier::new();
    classifier.punctuation = PredicateCache::new(2);
    classifier.accentuated = PredicateCache::new(0);
    for _ in 0..2 {
        for c in "a!b?c.\u{e9}e".chars() {
            assert_eq!(classifier.is_punctuation(&c, &t), is_punctuation(&c, &t));
            assert_eq!(classifier.is_accentuated(&c, &t), is_accentuated(&c));
        }
    }
}

#[test]
fn options_of_the_command_line() {
    assert_eq!(check_options(false, false, false), Ok(()));
    assert_eq!(check_options(true, false, false), Ok(()));
    assert_eq!(check_options(true, true, false), Ok(()));
    assert_eq!(check_options(true, true, true), Ok(()));
    assert_eq!(
        check_options(false, true, false),
        Err("Use --replace in addition of --normalize only.".to_string())
    );
    assert_eq!(
        check_options(false, true, true),
        Err("Use --replace in addition of --normalize only.".to_string())
    );
    assert_eq!(
        check_options(true, false, true),
        Err("Use --force in addition of --replace only.".to_string())
    );
    assert_eq!(
        check_options(false, false, true),
        Err("Use --force in addition of --replace only.".to_string())
    );
}

#[test]
fn name_of_the_normalized_copy() {
    assert_eq!(normalized_file_name("notes.txt", "windows-1252"), "notes.windows-1252.txt");
    assert_eq!(normalized_file_name("notes", "koi8-r"), "notes.koi8-r");
    assert_eq!(normalized_file_name("a.b.c", "big5"), "a.b.big5.c");
    assert_eq!(normalized_file_name(".hidden", "big5"), ".big5.hidden");
    assert_eq!(normalized_file_name("trailing.", "big5"), "trailing.big5.");
    assert_eq!(normalized_file_name("", "big5"), ".big5");
    assert_eq!(normalized_file_name("caf\u{e9}.txt", "x"), "caf\u{e9}.x.txt");
}

#[test]
fn accessors_of_a_match() {
    let t = tables();
    let coherence = vec![
        CoherenceMatch { language: "French".to_string(), score: 40_000 },
        CoherenceMatch { language: "English".to_string(), score: 30_000 },
    ];
    let mut found = CharsetMatch::new(b"caf\xE9", "windows-1252", 1_234, true, &coherence, Some("caf\u{e9}"));
    assert_eq!(found.encoding(), "windows-1252");
    assert!(found.bom());
    assert_eq!(found.chaos(), 1_234);
    assert_eq!(found.coherence(), 40_000);
    assert_eq!(found.most_probably_language(), Some("French"));
    assert_eq!(found.languages(), names(&["French", "English"]));
    assert_eq!(found.raw(), &b"caf\xE9".to_vec());
    assert_eq!(found.decoded_payload(), Some("caf\u{e9}"));
    assert_eq!(found.decode_payload(), Some("caf\u{e9}".to_string()));
    assert_eq!(found.suitable_encodings(), names(&["windows-1252"]));
    assert!(found.encoding_aliases().is_empty());
    assert!(!found.has_submatch());
    assert_eq!(found.unicode_ranges(&t), names(&["Basic Latin", "Latin-1 Supplement"]));
    let mut other = CharsetMatch::new(b"caf\xE9", "iso-8859-15", 0, false, &vec![], Some("caf\u{e9}"));
    other.add_submatch(&CharsetMatch::new(b"caf\xE9", "windows-1254", 0, false, &vec![], None));
    found.add_submatch(&other);
    assert!(found.has_submatch());
    assert_eq!(found.encoding_aliases(), &names(&["iso-8859-15", "windows-1254"]));
    assert_eq!(found.suitable_encodings(), names(&["windows-1252", "iso-8859-15", "windows-1254"]));
    let copy = found.clone();
    assert_eq!(copy.encoding(), "windows-1252");
    assert_eq!(copy.encoding_aliases(), found.encoding_aliases());
    assert_eq!(copy.fingerprint(), found.fingerprint());
}

#[test]
fn a_match_without_text_decodes_its_payload_anew() {
    let t = tables();
    let none = vec![];
    let found = CharsetMatch::new(b"caf\xE9", "windows-1252", 0, false, &none, None);
    assert_eq!(found.decoded_payload(), None);
    assert_eq!(found.decode_payload(), Some("caf\u{e9}".to_string()));
    assert_eq!(found.coherence(), 0);
    assert_eq!(found.most_probably_language(), None);
    assert!(found.unicode_ranges(&t).is_empty());
    // the ends of the payload are repaired as those of a chunk
    let cut = CharsetMatch::new(b"\xA9t\xC3", "utf-8", 0, false, &none, None);
    assert_eq!(cut.decode_payload(), Some("t".to_string()));
    let bad = CharsetMatch::new(b"abc", "no-such-encoding", 0, false, &none, None);
    assert_eq!(bad.decode_payload(), None);
}

#[test]
fn set_of_matches_from_a_list() {
    let none = vec![];
    let all = CharsetMatches::new(Some(vec![
        CharsetMatch::new(b"a", "windows-1252", 0, false, &none, Some("a")),
        CharsetMatch::new(b"a", "windows-1251", 0, false, &none, Some("a")),
        CharsetMatch::new(b"a", "utf-8", 0, false, &none, Some("b")),
    ]));
    assert_eq!(all.len(), 2);
    assert_eq!(all.items[0].encoding, "windows-1252");
    assert_eq!(all.items[0].aliases, names(&["windows-1251"]));
    assert_eq!(all.items[1].encoding, "utf-8");
    assert_eq!(all.get_by_name("windows-1251").unwrap().encoding, "windows-1252");
    assert!(all.get_by_name("latin1").is_none());
}

#[test]
fn answers_are_kept_up_to_the_capacity() {
    let t = tables();
    let mut classifier = Classifier::new();
    assert_eq!(classifier.punctuation.answers.len(), 0);
    assert!(classifier.is_punctuation(&'!', &t));
    assert!(!classifier.is_punctuation(&'a', &t));
    assert_eq!(classifier.punctuation.answers.len(), 2);
    assert!(classifier.punctuation.answers.contains_key(&('!' as u32)));
    assert_eq!(classifier.punctuation.answers.get_mut(&('!' as u32)), Some(&mut true));
    assert_eq!(classifier.punctuation.answers.get_mut(&('a' as u32)), Some(&mut false));
    assert!(classifier.is_punctuation(&'!', &t));
    assert_eq!(classifier.punctuation.answers.len(), 2);
    assert_eq!(classifier.symbol.answers.len(), 0);
    // a cache for two answers lets the least recently used one go
    classifier.punctuation = PredicateCache::new(2);
    for c in "!a!?".chars() {
        classifier.is_punctuation(&c, &t);
    }
    assert_eq!(classifier.punctuation.answers.len(), 2);
    assert!(classifier.punctuation.answers.contains_key(&('!' as u32)));
    assert!(classifier.punctuation.answers.contains_key(&('?' as u32)));
    assert!(!classifier.punctuation.answers.contains_key(&('a' as u32)));
    // a cache for no answer keeps none
    classifier.punctuation = PredicateCache::new(0);
    assert!(classifier.is_punctuation(&'!', &t));
    assert_eq!(classifier.punctuation.answers.len(), 0);
}
