use charset_normalizer_rs::chars::{category_fits, description_fits, first_or};
use charset_normalizer_rs::entity::{CharsetMatch, CharsetMatches};
use charset_normalizer_rs::md::{
    AccentWatch, ArchaicWatch, CjkStopWatch, ControlWatch, DuplicateAccentWatch, MessDetector,
    RangeWatch, SymbolWatch, WordMark, WordWatch,
};
use charset_normalizer_rs::prober::{
    finalize, fit_steps, is_ascii_text, is_given_up, is_unfit, is_winner, max_chunk_gave_up,
    mean_of, ChunkReading, ProbeState,
};
use charset_normalizer_rs::utils::{canonical_name, next_window, same_text};

#[test]
fn category_and_block_are_held_against_the_patterns() {
    assert!(category_fits("Po", None, &["Po", "Pd"], &[], &[]));
    assert!(category_fits("Zs", None, &["Po"], &["Z"], &[]));
    assert!(!category_fits("Sz", None, &["Po"], &["Z"], &[]));
    assert!(category_fits("Lu", Some("General Punctuation"), &[], &["P"], &["Punctuation"]));
    assert!(!category_fits("Lu", Some("Basic Latin"), &[], &["P"], &["Punctuation"]));
    assert!(!category_fits("Lu", None, &[], &["P"], &["Punctuation"]));
    assert!(!category_fits("Lu", Some("General Punctuation"), &[], &[], &[]));
    assert!(category_fits("Lu", None, &[], &[""], &[]));
}

#[test]
fn name_is_held_against_the_patterns() {
    assert!(description_fits(Some("LATIN SMALL LETTER E WITH ACUTE"), &["WITH GRAVE", "WITH ACUTE"]));
    assert!(!description_fits(Some("LATIN SMALL LETTER E"), &["WITH GRAVE", "WITH ACUTE"]));
    assert!(!description_fits(None, &["LATIN"]));
    assert!(!description_fits(Some("LATIN"), &[]));
    assert_eq!(first_or(&['e', '\u{301}'], 'x'), 'e');
    assert_eq!(first_or(&[], 'x'), 'x');
}

#[test]
fn canonical_name_is_picked_in_order() {
    let some = |s: &str| Some(s.to_string());
    assert_eq!(canonical_name("Latin1", true, Some(some("windows-1252")), some("x")), some("Latin1"));
    assert_eq!(canonical_name("latin1", false, Some(some("windows-1252")), some("x")), some("windows-1252"));
    assert_eq!(canonical_name("hz", false, Some(None), some("hz")), some("hz"));
    assert_eq!(canonical_name("hz", false, Some(None), None), None);
    assert_eq!(canonical_name("nothing", false, None, some("x")), None);
}

#[test]
fn window_of_a_chunk_shrinks_by_the_cause() {
    assert_eq!(next_window("invalid sequence", 0, 10, 10), Some((1, 10)));
    assert_eq!(next_window("incomplete sequence", 0, 10, 10), Some((0, 9)));
    assert_eq!(next_window("an invalid sequence and an incomplete sequence", 2, 9, 10), Some((3, 9)));
    assert_eq!(next_window("unrepresentable character", 0, 10, 10), None);
    assert_eq!(next_window("", 0, 10, 10), None);
    assert_eq!(next_window("invalid sequence", 3, 10, 10), None);
    assert_eq!(next_window("invalid sequence", 2, 10, 10), Some((3, 10)));
    assert_eq!(next_window("incomplete sequence", 0, 7, 10), None);
    assert_eq!(next_window("incomplete sequence", 0, 8, 10), Some((0, 7)));
    assert_eq!(next_window("invalid sequence", 0, 1, 1), None);
    assert_eq!(next_window("invalid sequence", 0, 0, 0), None);
    assert_eq!(next_window("incomplete sequence", 1, 2, 2), None);
}

#[test]
fn decodings_are_the_same_only_if_both_succeed() {
    let ok = |s: &str| Some(Ok(s.to_string()));
    let err = |s: &str| Some(Err(s.to_string()));
    assert!(same_text(&ok("a"), &ok("a")));
    assert!(same_text(&ok(""), &ok("")));
    assert!(!same_text(&ok("a"), &ok("b")));
    assert!(!same_text(&ok("a"), &err("a")));
    assert!(!same_text(&err("a"), &err("a")));
    assert!(!same_text(&None, &None));
    assert!(!same_text(&ok("a"), &None));
}

#[test]
fn symbol_watch_counts_marks_and_symbols() {
    let mut watch = SymbolWatch::new();
    assert!(!watch.eligible());
    assert_eq!(watch.ratio(), 0);
    watch = watch.counted(false, false);
    watch = watch.counted(true, false);
    watch = watch.counted(true, true);
    watch = watch.counted(false, true);
    assert_eq!((watch.total, watch.punctuation, watch.symbols), (4, 2, 1));
    assert!(watch.eligible());
    assert_eq!(watch.ratio(), 100_000);
    for _ in 0..4 {
        watch = watch.counted(false, false);
    }
    assert_eq!(watch.ratio(), 50_000);
}

#[test]
fn accent_watch_has_a_floor() {
    let mut watch = AccentWatch::new();
    for _ in 0..13 {
        watch = watch.counted(true, false);
    }
    for _ in 0..6 {
        watch = watch.counted(true, true);
    }
    watch = watch.counted(false, true);
    assert_eq!((watch.letters, watch.accentuated), (19, 6));
    // 6 of 19 is below 35 percent
    assert_eq!(watch.ratio(), 0);
    watch = watch.counted(true, true);
    // 7 of 20 is 35 percent
    assert_eq!(watch.ratio(), 35_000);
}

#[test]
fn control_and_archaic_watches() {
    let mut control = ControlWatch::new();
    let mut archaic = ArchaicWatch::new();
    for i in 0..100 {
        control = control.counted(i == 0);
        archaic = archaic.counted(i < 3);
    }
    assert_eq!(control.ratio(), 8_000);
    assert_eq!(archaic.ratio(), 3_000);
    for i in 0..20 {
        control = control.counted(i < 20);
    }
    assert_eq!(control.ratio(), 100_000);
}

#[test]
fn duplicate_accent_watch_forgets_behind_a_gap() {
    let mut watch = DuplicateAccentWatch::new();
    watch = watch.counted('\u{e9}', true, false);
    assert_eq!(watch.previous, Some('\u{e9}'));
    watch = watch.counted('\u{e8}', true, true);
    watch = watch.counted(' ', false, true);
    assert_eq!(watch.previous, None);
    assert_eq!((watch.letters, watch.successive), (2, 1));
    assert_eq!(watch.ratio(), 100_000);
    watch = watch.counted('a', true, false);
    watch = watch.counted('b', true, false);
    assert_eq!(watch.ratio(), 50_000);
}

#[test]
fn range_watch_counts_pairs_between_blanks() {
    let mut watch = RangeWatch::new();
    watch = watch.counted('a', false, true);
    assert_eq!((watch.pairs, watch.suspicious), (0, 0));
    assert!(!watch.eligible());
    watch = watch.counted('\u{416}', false, true);
    watch = watch.counted(' ', true, true);
    watch = watch.counted('b', false, true);
    watch = watch.counted('c', false, false);
    assert_eq!((watch.pairs, watch.suspicious), (2, 1));
    assert_eq!(watch.ratio(), 50_000);
}

fn letter(lower: bool, upper: bool, mixes: bool) -> WordMark {
    WordMark { blank: false, letter: true, lower, upper, mixes, sign: false }
}

fn blank() -> WordMark {
    WordMark { blank: true, letter: false, lower: false, upper: false, mixes: false, sign: false }
}

fn other(sign: bool) -> WordMark {
    WordMark { blank: false, letter: false, lower: false, upper: false, mixes: false, sign }
}

#[test]
fn word_watch_tells_weird_words() {
    let mut watch = WordWatch::new();
    // "Ab": a capital before a small letter is fine
    watch = watch.counted('A', letter(false, true, false));
    watch = watch.counted('b', letter(true, false, false));
    watch = watch.counted(' ', blank());
    assert_eq!((watch.words, watch.weird), (1, 0));
    // "aB": a capital behind a small letter
    watch = watch.counted('a', letter(true, false, false));
    watch = watch.counted('B', letter(false, true, false));
    watch = watch.counted(' ', blank());
    assert_eq!((watch.words, watch.weird), (2, 1));
    // "a$": a letter and a sign
    watch = watch.counted('a', letter(true, false, false));
    watch = watch.counted('$', other(true));
    watch = watch.counted(' ', blank());
    assert_eq!((watch.words, watch.weird), (3, 2));
    // "$$": signs alone
    watch = watch.counted('$', other(true));
    watch = watch.counted(' ', blank());
    watch = watch.counted(' ', blank());
    assert_eq!((watch.words, watch.weird), (4, 2));
    // two letters that cross blocks; the first letter of a word mixes with nothing
    watch = watch.counted('a', letter(true, false, true));
    assert!(!watch.script_mix);
    watch = watch.counted('\u{416}', letter(false, true, true));
    assert!(watch.script_mix);
    assert!(watch.open);
    // the word that is still open counts
    assert_eq!(watch.close().words, 5);
    assert_eq!(watch.close().weird, 3);
    assert!(!watch.eligible());
    assert_eq!(watch.ratio(), 60_000);
    // a sign between two letters parts them
    let mut watch = WordWatch::new();
    watch = watch.counted('a', letter(true, false, false));
    watch = watch.counted('-', other(false));
    watch = watch.counted('\u{416}', letter(false, false, true));
    assert!(!watch.script_mix);
}

#[test]
fn cjk_stop_watch_counts_stops_behind_cjk() {
    let mut watch = CjkStopWatch::new();
    watch = watch.counted(false, true);
    assert_eq!((watch.cjk, watch.stops), (0, 0));
    assert!(!watch.eligible());
    watch = watch.counted(true, false);
    watch = watch.counted(false, true);
    watch = watch.counted(false, true);
    watch = watch.counted(true, false);
    watch = watch.counted(false, false);
    watch = watch.counted(false, true);
    assert_eq!((watch.cjk, watch.stops), (2, 1));
    assert_eq!(watch.ratio(), 50_000);
}

#[test]
fn mess_is_the_largest_ratio_of_the_watches_that_take_part() {
    let mut watches = MessDetector::new();
    assert_eq!(watches.mess(), 0);
    watches.symbols = SymbolWatch { total: 10, punctuation: 1, symbols: 0 };
    watches.accents = AccentWatch { letters: 10, accentuated: 4 };
    watches.controls = ControlWatch { total: 10, unprintable: 0 };
    watches.archaic = ArchaicWatch { total: 10, rare: 3 };
    watches.read = 10;
    assert_eq!(watches.mess(), 40_000);
    watches.accents = AccentWatch { letters: 10, accentuated: 2 };
    assert_eq!(watches.mess(), 30_000);
    // nine weird words of nine are not trusted, ten of ten are
    watches.words = WordWatch { words: 9, weird: 9, ..WordWatch::new() };
    assert_eq!(watches.mess(), 30_000);
    watches.words = WordWatch { words: 10, weird: 10, ..WordWatch::new() };
    assert_eq!(watches.mess(), 100_000);
}

#[test]
fn steps_and_chunks_are_fitted_to_the_payload() {
    assert_eq!(fit_steps(1, 5, 512), (1, 1));
    assert_eq!(fit_steps(2560, 5, 512), (1, 2560));
    assert_eq!(fit_steps(2561, 5, 512), (5, 512));
    assert_eq!(fit_steps(2561, 5, 10_000), (1, 2561));
    assert_eq!(fit_steps(100, 7, 1), (7, 1));
    assert_eq!(fit_steps(100, 1, 50), (1, 50));
    assert_eq!(fit_steps(usize::MAX, usize::MAX, usize::MAX), (1, usize::MAX));
    assert_eq!(max_chunk_gave_up(1), 2);
    assert_eq!(max_chunk_gave_up(11), 2);
    assert_eq!(max_chunk_gave_up(12), 3);
    assert_eq!(max_chunk_gave_up(40), 10);
}

#[test]
fn verdict_on_an_encoding() {
    assert!(!is_given_up(19_999, 1, 5, 20_000));
    assert!(is_given_up(20_000, 0, 5, 20_000));
    assert!(is_given_up(0, 2, 5, 20_000));
    assert!(!is_given_up(0, 2, 12, 20_000));
    assert!(is_given_up(0, 3, 12, 20_000));
    assert!(is_given_up(0, 0, 5, 0));
    assert!(is_winner(9_999, true, false));
    assert!(!is_winner(10_000, true, false));
    assert!(!is_winner(0, false, false));
    assert!(is_winner(99_999, false, true));
    assert_eq!(mean_of(&vec![]), 0);
    assert_eq!(mean_of(&vec![10, 20, 31]), 20);
    assert_eq!(mean_of(&vec![100_000, 100_000]), 100_000);
}

#[test]
fn chunks_are_judged() {
    let text = |s: &str| -> Result<Vec<char>, String> { Ok(s.chars().collect()) };
    assert!(!is_unfit(&text("abc"), "ascii"));
    assert!(is_unfit(&text("ab\u{e9}"), "ascii"));
    assert!(!is_unfit(&text("ab\u{e9}"), "windows-1252"));
    assert!(is_unfit(&Err("invalid sequence".to_string()), "windows-1252"));
    assert!(is_ascii_text(&[]));
    assert!(is_ascii_text(&['\u{7f}']));
    assert!(!is_ascii_text(&['a', '\u{80}']));
    let mut reading = ChunkReading::new();
    reading.take(vec!['a'], 19_999, 20_000);
    reading.take(vec!['b'], 20_000, 20_000);
    assert_eq!(reading.ratios, vec![19_999, 20_000]);
    assert_eq!(reading.chunks, vec![vec!['a'], vec!['b']]);
    assert_eq!(reading.gave_up, 1);
    assert!(!reading.failed);
    reading.fail(5);
    assert!(reading.failed);
    assert_eq!(reading.gave_up, 2);
    assert_eq!(reading.ratios.len(), 2);
    reading.fail(40);
    assert_eq!(reading.gave_up, 10);
}

fn fallback(encoding: &str, text: &str) -> Option<CharsetMatch> {
    Some(CharsetMatch::new(b"x", encoding, 20_000, false, &vec![], Some(text)))
}

fn state(
    specified: Option<CharsetMatch>,
    ascii: Option<CharsetMatch>,
    u8_match: Option<CharsetMatch>,
) -> ProbeState {
    ProbeState {
        soft_failure: vec![],
        fallback_specified: specified,
        fallback_ascii: ascii,
        fallback_u8: u8_match,
        results: CharsetMatches::new(None),
    }
}

#[test]
fn fallback_is_chosen_in_order() {
    let names = |m: &CharsetMatches| m.items.iter().map(|i| i.encoding.clone()).collect::<Vec<_>>();
    let all = finalize(state(fallback("koi8-r", "a"), fallback("ascii", "b"), fallback("utf-8", "c")));
    assert_eq!(names(&all), vec!["koi8-r"]);
    let all = finalize(state(None, fallback("ascii", "b"), fallback("utf-8", "c")));
    assert_eq!(names(&all), vec!["utf-8"]);
    // utf-8 that reads the same as ascii gives way to ascii
    let all = finalize(state(None, fallback("ascii", "b"), fallback("utf-8", "b")));
    assert_eq!(names(&all), vec!["ascii"]);
    let all = finalize(state(None, None, fallback("utf-8", "b")));
    assert_eq!(names(&all), vec!["utf-8"]);
    let all = finalize(state(None, fallback("ascii", "b"), None));
    assert_eq!(names(&all), vec!["ascii"]);
    assert!(finalize(state(None, None, None)).is_empty());
    // matches that were found stand, and no fallback is added
    let mut found = state(fallback("koi8-r", "a"), None, None);
    found.results.append(CharsetMatch::new(b"x", "big5", 0, false, &vec![], Some("z")));
    assert_eq!(names(&finalize(found)), vec!["big5"]);
}
