use charset_normalizer_rs::assets::{
    EncodingLanguages, EncodingMark, LanguageEntry, SimilarEncodings, Tables, UnicodeRange,
};
use charset_normalizer_rs::entity::{CharsetMatches, NormalizerSettings};
use charset_normalizer_rs::{detect, from_bytes, SettingsError};

fn names(list: &[&str]) -> Vec<String> {
    list.iter().map(|s| s.to_string()).collect()
}

fn range(name: &str, first: u32, last: u32) -> UnicodeRange {
    UnicodeRange { name: name.to_string(), first, last }
}

fn language(name: &str, alphabet: &str, has_accents: bool, pure_latin: bool) -> LanguageEntry {
    LanguageEntry {
        language: name.to_string(),
        alphabet: alphabet.to_string(),
        has_accents,
        pure_latin,
    }
}

fn supported() -> Vec<String> {
    let left_out = ["error", "encoder-only-utf-8", "pua-mapped-binary"];
    encoding::all::encodings()
        .iter()
        .filter(|codec| !left_out.contains(&codec.name()))
        .map(|codec| codec.whatwg_name().unwrap_or(codec.name()).to_string())
        .collect()
}

fn tables() -> Tables {
    let western = ["English", "French", "German", "Spanish"];
    Tables {
        iana_supported: supported(),
        similar: vec![
            SimilarEncodings {
                encoding: "windows-1252".to_string(),
                similar: names(&["iso-8859-15", "windows-1254"]),
            },
            SimilarEncodings {
                encoding: "iso-8859-15".to_string(),
                similar: names(&["windows-1252", "windows-1254"]),
            },
        ],
        marks: vec![
            EncodingMark { encoding: "utf-8".to_string(), signature: vec![0xEF, 0xBB, 0xBF] },
            EncodingMark { encoding: "gb18030".to_string(), signature: vec![0x84, 0x31, 0x95, 0x33] },
            EncodingMark { encoding: "utf-16le".to_string(), signature: vec![0xFF, 0xFE] },
            EncodingMark { encoding: "utf-16be".to_string(), signature: vec![0xFE, 0xFF] },
        ],
        ranges: vec![
            range("Control character", 0x0000, 0x001F),
            range("Basic Latin", 0x0020, 0x007F),
            range("Latin-1 Supplement", 0x0080, 0x00FF),
            range("Latin Extended-A", 0x0100, 0x017F),
            range("Latin Extended-B", 0x0180, 0x024F),
            range("Combining Diacritical Marks", 0x0300, 0x036F),
            range("Greek and Coptic", 0x0370, 0x03FF),
            range("Cyrillic", 0x0400, 0x04FF),
            range("Hebrew", 0x0590, 0x05FF),
            range("Arabic", 0x0600, 0x06FF),
            range("Thai", 0x0E00, 0x0E7F),
            range("General Punctuation", 0x2000, 0x206F),
            range("CJK Symbols and Punctuation", 0x3000, 0x303F),
            range("Hiragana", 0x3040, 0x309F),
            range("Katakana", 0x30A0, 0x30FF),
            range("CJK Unified Ideographs", 0x4E00, 0x9FFF),
            range("Hangul Syllables", 0xAC00, 0xD7AF),
            range("Halfwidth and Fullwidth Forms", 0xFF00, 0xFFEF),
            range("Emoticons range(Emoji)", 0x1F600, 0x1F64F),
        ],
        secondary_keywords: names(&[
            "Supplement",
            "Extended",
            "Extensions",
            "Modifier",
            "Marks",
            "Punctuation",
            "Symbols",
            "Forms",
            "Operators",
            "Miscellaneous",
            "Drawing",
            "Block",
            "Shapes",
            "Supplemental",
            "Tags",
        ]),
        languages: vec![
            language("English", "eationsrhldcmufpgwbyvkjxzq", false, true),
            language("French", "eaistnrulodmcpévgfbhqàxèyj", true, true),
            language("German", "enirstadhulgocmbfkwzpvüäöj", true, true),
            language("Spanish", "eaonsrildtcumpbgvfyóhqíjzá", true, true),
            language("Russian", "оаеинстрвлкмдпугязбйьчхжцющэфшыъё", false, false),
        ],
        encoding_languages: vec![
            EncodingLanguages { encoding: "windows-1252".to_string(), languages: names(&western) },
            EncodingLanguages { encoding: "iso-8859-1".to_string(), languages: names(&western) },
            EncodingLanguages { encoding: "windows-1251".to_string(), languages: names(&["Russian"]) },
        ],
        mb_encoding_languages: vec![],
    }
}

fn encodings_of(matches: &CharsetMatches) -> Vec<String> {
    matches.items.iter().map(|m| m.encoding.clone()).collect()
}

#[test]
fn empty_input_is_utf_8() {
    let found = from_bytes(&vec![], None, &tables());
    assert_eq!(found.len(), 1);
    let best = found.get_best().unwrap();
    assert_eq!(best.encoding, "utf-8");
    assert_eq!(best.mean_mess_ratio, 0);
    assert!(!best.has_sig_or_bom);
    assert!(best.coherence_matches.is_empty());
    assert!(best.decoded_payload.is_none());
}

#[test]
fn utf_8_bom_then_ascii_text() {
    let found = from_bytes(&vec![0xEF, 0xBB, 0xBF, b'h', b'i'], None, &tables());
    assert_eq!(encodings_of(&found), vec!["utf-8".to_string()]);
    let best = found.get_best().unwrap();
    assert!(best.has_sig_or_bom);
    assert_eq!(best.mean_mess_ratio, 0);
    assert_eq!(best.decoded_payload.as_deref(), Some("hi"));
}

#[test]
fn utf_16le_bom_then_text() {
    let found = from_bytes(&vec![0xFF, 0xFE, 0x68, 0x00, 0x69, 0x00], None, &tables());
    assert_eq!(encodings_of(&found), vec!["utf-16le".to_string()]);
    let best = found.get_best().unwrap();
    assert!(best.has_sig_or_bom);
    assert_eq!(best.decoded_payload.as_deref(), Some("hi"));
}

#[test]
fn utf_16_without_bom_is_not_probed() {
    let found = from_bytes(&vec![0x68, 0x00, 0x69, 0x00], None, &tables());
    assert!(found.items.iter().all(|m| m.encoding != "utf-16le" && m.encoding != "utf-16be"));
    assert!(found.items.iter().all(|m| !m.aliases.contains(&"utf-16le".to_string())));
}

#[test]
fn pure_ascii_is_ascii() {
    let found = from_bytes(&b"hello world".to_vec(), None, &tables());
    assert_eq!(encodings_of(&found), vec!["ascii".to_string()]);
    let best = found.get_best().unwrap();
    assert_eq!(best.mean_mess_ratio, 0);
    assert!(best.coherence_matches.is_empty());
    assert!(!best.has_sig_or_bom);
    assert_eq!(best.decoded_payload.as_deref(), Some("hello world"));
}

#[test]
fn windows_1252_bytes_for_cafe() {
    let tables = tables();
    let settings = NormalizerSettings::default();
    let threshold = settings.threshold;
    let found = from_bytes(&vec![0x63, 0x61, 0x66, 0xE9], Some(settings), &tables);
    let best = found.get_best().unwrap();
    let by_name = found.get_by_encoding("windows-1252", &tables).unwrap();
    assert_eq!(by_name.encoding, best.encoding);
    assert!(best.encoding == "windows-1252" || best.aliases.contains(&"windows-1252".to_string()));
    assert_eq!(best.decoded_payload.as_deref(), Some("caf\u{e9}"));
    assert!(best.mean_mess_ratio < threshold);
    assert!(!best.coherence_matches.is_empty());
    let latin = ["English", "French", "German", "Spanish"];
    assert!(best.coherence_matches.iter().all(|m| latin.contains(&m.language.as_str())));
}

#[test]
fn bytes_that_are_no_western_text_give_nothing() {
    let settings = NormalizerSettings {
        include_encodings: names(&["ascii", "utf-8", "windows-1252", "iso-8859-15"]),
        ..NormalizerSettings::default()
    };
    let found = from_bytes(&vec![0xFF; 1024], Some(settings), &tables());
    assert!(found.is_empty());
    assert!(found.get_best().is_none());
}

#[test]
fn every_match_is_below_the_threshold_or_alone() {
    let tables = tables();
    let inputs: Vec<Vec<u8>> = vec![
        vec![0x63, 0x61, 0x66, 0xE9],
        vec![0xFF; 64],
        b"plain text, nothing else".to_vec(),
        vec![0xC3, 0xA9, 0x74, 0xC3, 0xA9],
    ];
    for bytes in inputs {
        let found = from_bytes(&bytes, None, &tables);
        for item in &found.items {
            assert!(item.mean_mess_ratio < 20_000 || found.len() == 1);
        }
    }
}

#[test]
fn every_encoding_found_is_a_supported_name() {
    let tables = tables();
    let found = from_bytes(&vec![0x63, 0x61, 0x66, 0xE9], None, &tables);
    assert!(!found.is_empty());
    for item in &found.items {
        assert!(tables.iana_supported.contains(&item.encoding));
        for alias in &item.aliases {
            assert!(tables.iana_supported.contains(alias));
        }
    }
}

#[test]
fn detection_of_decoded_text_gives_utf_8() {
    let tables = tables();
    let found = from_bytes(&vec![0x63, 0x61, 0x66, 0xE9], None, &tables);
    let text = found.get_best().unwrap().decoded_payload.clone().unwrap();
    assert_eq!(text, "caf\u{e9}");
    assert_eq!(text.as_bytes(), &[0x63, 0x61, 0x66, 0xC3, 0xA9]);
    let again = from_bytes(&text.as_bytes().to_vec(), None, &tables);
    assert_eq!(again.get_best().unwrap().encoding, "utf-8");
}

#[test]
fn detection_is_repeatable() {
    let tables = tables();
    let bytes = vec![0x63, 0x61, 0x66, 0xE9, 0x20, 0x6F, 0x6C, 0xE9];
    let first = from_bytes(&bytes, None, &tables);
    let second = from_bytes(&bytes, None, &tables);
    assert_eq!(encodings_of(&first), encodings_of(&second));
    for (a, b) in first.items.iter().zip(second.items.iter()) {
        assert_eq!(a.mean_mess_ratio, b.mean_mess_ratio);
        assert_eq!(a.aliases, b.aliases);
        assert_eq!(a.decoded_payload, b.decoded_payload);
        assert_eq!(a.fingerprint(), b.fingerprint());
    }
}

#[test]
fn coherence_scores_lie_between_threshold_and_one() {
    let tables = tables();
    let bytes = "le cafe est ferme, la fete commence".as_bytes().to_vec();
    let settings = NormalizerSettings {
        exclude_encodings: names(&["ascii"]),
        ..NormalizerSettings::default()
    };
    let found = from_bytes(&bytes, Some(settings), &tables);
    assert!(!found.is_empty());
    let mut seen = 0;
    for item in &found.items {
        for m in &item.coherence_matches {
            assert!(m.score >= 10_000 && m.score <= 100_000);
            seen += 1;
        }
    }
    assert!(seen > 0);
}

#[test]
fn declared_encoding_is_probed_first() {
    let tables = tables();
    let bytes = b"<meta charset=\"windows-1252\"> caf\xE9".to_vec();
    let found = from_bytes(&bytes, None, &tables);
    assert_eq!(found.get_best().unwrap().encoding, "windows-1252");
    assert_eq!(found.len(), 1);
}

#[test]
fn excluded_encoding_is_not_found() {
    let tables = tables();
    let settings = NormalizerSettings {
        exclude_encodings: names(&["ascii"]),
        ..NormalizerSettings::default()
    };
    let found = from_bytes(&b"hello world".to_vec(), Some(settings), &tables);
    assert_eq!(found.get_best().unwrap().encoding, "utf-8");
}

#[test]
fn detect_refuses_unknown_encoding() {
    let settings = NormalizerSettings {
        include_encodings: names(&["utf-8", "no-such-encoding"]),
        ..NormalizerSettings::default()
    };
    match detect(&b"hello".to_vec(), Some(settings), &tables()) {
        Err(SettingsError::UnknownEncoding(name)) => assert_eq!(name, "no-such-encoding"),
        _ => panic!("an unknown encoding must be refused"),
    }
}

#[test]
fn detect_refuses_no_steps_and_no_chunks() {
    let no_steps = NormalizerSettings { steps: 0, ..NormalizerSettings::default() };
    assert!(matches!(detect(&b"hello".to_vec(), Some(no_steps), &tables()), Err(SettingsError::NoSteps)));
    let no_chunks = NormalizerSettings { chunk_size: 0, ..NormalizerSettings::default() };
    assert!(matches!(
        detect(&b"hello".to_vec(), Some(no_chunks), &tables()),
        Err(SettingsError::NoChunkSize)
    ));
}

#[test]
fn detect_resolves_aliases_in_settings() {
    let settings = NormalizerSettings {
        include_encodings: names(&["latin1", "utf8"]),
        ..NormalizerSettings::default()
    };
    let found = detect(&vec![0x63, 0x61, 0x66, 0xE9], Some(settings), &tables()).unwrap();
    assert_eq!(encodings_of(&found), vec!["windows-1252".to_string()]);
}

#[test]
fn fallback_is_kept_when_nothing_fits() {
    let tables = tables();
    // Symbols alone: every chunk is messy, so utf-8 is given up but kept as a fallback.
    let text = "\u{2200}\u{2201}\u{2202}\u{2203}\u{2204}\u{2205}\u{2206}\u{2207}";
    let settings = NormalizerSettings {
        include_encodings: names(&["utf-8"]),
        ..NormalizerSettings::default()
    };
    let found = from_bytes(&text.as_bytes().to_vec(), Some(settings), &tables);
    assert_eq!(found.len(), 1);
    let best = found.get_best().unwrap();
    assert_eq!(best.encoding, "utf-8");
    assert_eq!(best.mean_mess_ratio, 20_000);
    let settings = NormalizerSettings {
        include_encodings: names(&["utf-8"]),
        enable_fallback: false,
        ..NormalizerSettings::default()
    };
    let found = from_bytes(&text.as_bytes().to_vec(), Some(settings), &tables);
    assert!(found.is_empty());
}

#[test]
fn raising_the_threshold_may_replace_the_fallback() {
    let tables = tables();
    let text = "\u{2200}\u{2201}\u{2202}\u{2203}\u{2204}\u{2205}\u{2206}\u{2207}";
    let probe = |threshold: u32| {
        let settings = NormalizerSettings {
            threshold,
            include_encodings: names(&["utf-8", "windows-1251"]),
            ..NormalizerSettings::default()
        };
        from_bytes(&text.as_bytes().to_vec(), Some(settings), &tables)
    };
    // both encodings are too messy: utf-8 is kept as the fallback
    let low = probe(20_000);
    assert_eq!(encodings_of(&low), vec!["utf-8".to_string()]);
    assert_eq!(low.get_best().unwrap().mean_mess_ratio, 20_000);
    // windows-1251 passes now, and the fallback is not needed
    let high = probe(90_000);
    assert_eq!(encodings_of(&high), vec!["windows-1251".to_string()]);
    assert_eq!(high.get_best().unwrap().mean_mess_ratio, 87_500);
}

#[test]
fn a_clean_encoding_is_found_under_every_higher_threshold() {
    let tables = tables();
    for threshold in [20_000u32, 40_000, 100_000] {
        let settings = NormalizerSettings { threshold, ..NormalizerSettings::default() };
        let found = from_bytes(&vec![0x63, 0x61, 0x66, 0xE9], Some(settings), &tables);
        let best = found.get_by_encoding("windows-1252", &tables).unwrap();
        assert_eq!(best.mean_mess_ratio, 0);
    }
}

#[test]
fn large_payload_is_read_in_chunks() {
    let tables = tables();
    let line = "The quick brown fox jumps over the lazy dog and runs far away.\n";
    let bytes: Vec<u8> = line.as_bytes().iter().cycle().take(20_000).cloned().collect();
    let found = from_bytes(&bytes, None, &tables);
    assert_eq!(encodings_of(&found), vec!["ascii".to_string()]);
    assert_eq!(found.get_best().unwrap().mean_mess_ratio, 0);
    let settings = NormalizerSettings {
        exclude_encodings: names(&["ascii"]),
        ..NormalizerSettings::default()
    };
    let found = from_bytes(&bytes, Some(settings), &tables);
    let best = found.get_best().unwrap();
    assert_eq!(best.encoding, "utf-8");
    assert_eq!(best.coherence_matches[0].language, "English");
}
