//! The mess detector: how unnatural a decoded text looks.
//!
//! Eight watches read the text character by character. Each keeps a few
//! counts and turns them into a ratio; a watch that has seen nothing of its
//! kind takes no part. The mess of a text is the largest ratio of the watches
//! that take part.

use crate::assets::{Tables, TOO_SMALL_SEQUENCE};
use crate::cache::Classifier;
use crate::ratio::{lemma_ratio_bounds, ratio_max, ratio_spec, ratio_wide, RATIO_ONE};
use crate::text::{chars_of, str_views, views};
use crate::unicode::{alphabetic, lowercase, uppercase, whitespace};
use crate::chars::{
    in_category,
    in_category_spec,
    is_accentuated_spec,
    is_ascii,
    is_ascii_spec,
    is_cjk_spec,
    is_emoticon,
    is_emoticon_spec,
    is_punctuation_spec,
    is_separator_spec,
    is_symbol_spec,
    is_unprintable,
    is_unprintable_spec,
    remove_accent,
    remove_accent_spec,
};
use crate::ranges::{
    is_suspiciously_successive_range,
    suspicious_succession,
    unicode_range,
    unicode_range_spec,
};
use vstd::prelude::*;

verus! {

/// Among letters, the share of accentuated ones, in percent, from which the
/// share counts as mess.
pub const ACCENT_FLOOR_PERCENT: usize = 35;

/// The number of words below which the share of weird words is not trusted.
pub const WORD_FLOOR: usize = 10;

/// How far the mess must stand above the caller's threshold for the reading
/// to stop early, in units of a ratio.
pub const EARLY_STOP_MARGIN: u32 = 5_000;

/// The threshold that is taken where the caller names none: one fifth.
pub const DEFAULT_MESS_THRESHOLD: u32 = 20_000;

/// Whether a step from `previous` to `current` crosses two blocks in a
/// suspicious way.
pub open spec fn suspicious_pair(previous: char, current: char, tables: &Tables) -> bool {
    suspicious_succession(
        unicode_range_spec(previous, tables.ranges@),
        unicode_range_spec(current, tables.ranges@),
        views(tables.secondary_keywords@),
    )
}

/// Whether a step between two characters crosses two blocks in a suspicious
/// way.
fn is_suspicious_pair(previous: &char, current: &char, tables: &Tables) -> (r: bool)
    ensures
        r == suspicious_pair(*previous, *current, tables),
{
    let a = unicode_range(previous, tables);
    let b = unicode_range(current, tables);
    is_suspiciously_successive_range(a, b, tables)
}

/// A character that stands for a sign rather than for a sound or a number: a
/// category that begins with `S`, or a block of forms.
pub open spec fn is_sign_spec(c: char, tables: &Tables) -> bool {
    in_category_spec(c, seq![], seq!["S"@], seq!["Forms"@], tables.ranges@)
}

/// Whether a character stands for a sign.
fn is_sign(c: &char, tables: &Tables) -> (r: bool)
    ensures
        r == is_sign_spec(*c, tables),
{
    let exact: Vec<&str> = Vec::new();
    let partial: Vec<&str> = vec!["S"];
    let ranges: Vec<&str> = vec!["Forms"];
    proof {
        assert(str_views(exact@) =~= seq![]);
        assert(str_views(partial@) =~= seq!["S"@]);
        assert(str_views(ranges@) =~= seq!["Forms"@]);
    }
    in_category(c, exact.as_slice(), partial.as_slice(), ranges.as_slice(), tables)
}

/// A mark beyond ASCII: punctuation or a separator.
pub open spec fn is_foreign_mark(c: char, tables: &Tables) -> bool {
    !is_ascii_spec(c) && (is_punctuation_spec(c, tables.ranges@) || is_separator_spec(
        c,
        tables.ranges@,
    ))
}

/// A symbol beyond ASCII that is no emoticon.
pub open spec fn is_foreign_symbol(c: char, tables: &Tables) -> bool {
    !is_ascii_spec(c) && is_symbol_spec(c, tables.ranges@) && !is_emoticon_spec(c, tables.ranges@)
}

/// Too many symbols or punctuation marks: counts the punctuation marks,
/// separators and symbols that are not ASCII. A symbol weighs twice.
#[derive(Clone, Copy, Debug)]
pub struct SymbolWatch {
    pub total: usize,
    pub punctuation: usize,
    pub symbols: usize,
}

impl SymbolWatch {
    /// No count is above the number of characters read.
    pub open spec fn sound(self) -> bool {
        self.punctuation <= self.total && self.symbols <= self.total
    }

    /// The counts are sound, and at most `n` characters were read.
    pub open spec fn bounded(self, n: int) -> bool {
        self.sound() && self.total <= n
    }

    /// The watch after a character that is a mark, or else a symbol, or
    /// neither.
    pub open spec fn counted_spec(self, mark: bool, symbol: bool) -> Self {
        SymbolWatch {
            total: (self.total + 1) as usize,
            punctuation: if mark {
                (self.punctuation + 1) as usize
            } else {
                self.punctuation
            },
            symbols: if !mark && symbol {
                (self.symbols + 1) as usize
            } else {
                self.symbols
            },
        }
    }

    /// The watch after one more character.
    pub open spec fn fed(self, c: char, tables: &Tables) -> Self {
        self.counted_spec(is_foreign_mark(c, tables), is_foreign_symbol(c, tables))
    }

    /// The watch has seen something of its kind, and takes part.
    pub open spec fn eligible_spec(self) -> bool {
        self.total > 0
    }

    /// The ratio that the counts amount to, in units.
    pub open spec fn ratio_spec(self) -> int {
        ratio_spec(self.punctuation + 2 * self.symbols, self.total as int)
    }

    /// The watch before any character.
    pub fn new() -> (r: Self)
        ensures
            r == (SymbolWatch { total: 0, punctuation: 0, symbols: 0 }),
    {
        SymbolWatch { total: 0, punctuation: 0, symbols: 0 }
    }

    /// Counts one character, of which it is known whether it is a mark and
    /// whether it is a symbol.
    pub fn counted(self, mark: bool, symbol: bool) -> (r: Self)
        requires
            self.sound(),
            self.total < usize::MAX,
        ensures
            r == self.counted_spec(mark, symbol),
            r.sound(),
    {
        SymbolWatch {
            total: self.total + 1,
            punctuation: if mark {
                self.punctuation + 1
            } else {
                self.punctuation
            },
            symbols: if !mark && symbol {
                self.symbols + 1
            } else {
                self.symbols
            },
        }
    }

    /// Reads one character.
    pub fn feed(self, c: char, tables: &Tables, classifier: &mut Classifier) -> (r: Self)
        requires
            self.sound(),
            self.total < usize::MAX,
            old(classifier).wf(tables),
        ensures
            r == self.fed(c, tables),
            r.sound(),
            final(classifier).wf(tables),
    {
        let foreign = !is_ascii(&c);
        let mark = foreign && (classifier.is_punctuation(&c, tables) || classifier.is_separator(
            &c,
            tables,
        ));
        let symbol = foreign && !mark && classifier.is_symbol(&c, tables) && !is_emoticon(
            &c,
            tables,
        );
        self.counted(mark, symbol)
    }

    /// Whether the watch takes part.
    pub fn eligible(&self) -> (r: bool)
        ensures
            r == self.eligible_spec(),
    {
        self.total > 0
    }

    /// The ratio of the watch.
    pub fn ratio(&self) -> (r: u32)
        ensures
            r == self.ratio_spec(),
            r <= RATIO_ONE,
    {
        ratio_wide(self.punctuation as u128 + 2 * (self.symbols as u128), self.total as u128)
    }
}

/// Too many accentuated letters: among the letters, the share of those that
/// carry an accent. A share below the floor is no mess at all.
#[derive(Clone, Copy, Debug)]
pub struct AccentWatch {
    pub letters: usize,
    pub accentuated: usize,
}

impl AccentWatch {
    /// No more letters carry an accent than there are letters.
    pub open spec fn sound(self) -> bool {
        self.accentuated <= self.letters
    }

    /// The counts are sound, and at most `n` letters were read.
    pub open spec fn bounded(self, n: int) -> bool {
        self.sound() && self.letters <= n
    }

    /// The watch after a character that is a letter or not, with an accent
    /// or without.
    pub open spec fn counted_spec(self, letter: bool, accentuated: bool) -> Self {
        if letter {
            AccentWatch {
                letters: (self.letters + 1) as usize,
                accentuated: if accentuated {
                    (self.accentuated + 1) as usize
                } else {
                    self.accentuated
                },
            }
        } else {
            self
        }
    }

    /// The watch after one more character.
    pub open spec fn fed(self, c: char) -> Self {
        self.counted_spec(alphabetic(c), is_accentuated_spec(c))
    }

    /// The watch has seen something of its kind, and takes part.
    pub open spec fn eligible_spec(self) -> bool {
        self.letters > 0
    }

    /// The ratio that the counts amount to, in units.
    pub open spec fn ratio_spec(self) -> int {
        if self.accentuated * 100 >= ACCENT_FLOOR_PERCENT * self.letters {
            ratio_spec(self.accentuated as int, self.letters as int)
        } else {
            0
        }
    }

    /// The watch before any character.
    pub fn new() -> (r: Self)
        ensures
            r == (AccentWatch { letters: 0, accentuated: 0 }),
    {
        AccentWatch { letters: 0, accentuated: 0 }
    }

    /// Counts one character, of which it is known whether it is a letter and
    /// whether it carries an accent.
    pub fn counted(self, letter: bool, accentuated: bool) -> (r: Self)
        requires
            self.sound(),
            self.letters < usize::MAX,
        ensures
            r == self.counted_spec(letter, accentuated),
            r.sound(),
    {
        if letter {
            AccentWatch {
                letters: self.letters + 1,
                accentuated: if accentuated {
                    self.accentuated + 1
                } else {
                    self.accentuated
                },
            }
        } else {
            self
        }
    }

    /// Reads one character.
    pub fn feed(self, c: char, tables: &Tables, classifier: &mut Classifier) -> (r: Self)
        requires
            self.sound(),
            self.letters < usize::MAX,
            old(classifier).wf(tables),
        ensures
            r == self.fed(c),
            r.sound(),
            final(classifier).wf(tables),
    {
        let letter = c.is_alphabetic();
        let accentuated = letter && classifier.is_accentuated(&c, tables);
        self.counted(letter, accentuated)
    }

    /// Whether the watch takes part.
    pub fn eligible(&self) -> (r: bool)
        ensures
            r == self.eligible_spec(),
    {
        self.letters > 0
    }

    /// The ratio of the watch.
    pub fn ratio(&self) -> (r: u32)
        ensures
            r == self.ratio_spec(),
            r <= RATIO_ONE,
    {
        let floor: u128 = ACCENT_FLOOR_PERCENT as u128;
        assert(floor == 35);
        if (self.accentuated as u128) * 100 >= floor * (self.letters as u128) {
            ratio_wide(self.accentuated as u128, self.letters as u128)
        } else {
            0
        }
    }
}

/// Unprintable and control characters: their share of the text, weighed
/// eightfold, since real text holds next to none.
#[derive(Clone, Copy, Debug)]
pub struct ControlWatch {
    pub total: usize,
    pub unprintable: usize,
}

impl ControlWatch {
    /// No count is above the number of characters read.
    pub open spec fn sound(self) -> bool {
        self.unprintable <= self.total
    }

    /// The counts are sound, and at most `n` characters were read.
    pub open spec fn bounded(self, n: int) -> bool {
        self.sound() && self.total <= n
    }

    /// The watch after a character that is unprintable or not.
    pub open spec fn counted_spec(self, unprintable: bool) -> Self {
        ControlWatch {
            total: (self.total + 1) as usize,
            unprintable: if unprintable {
                (self.unprintable + 1) as usize
            } else {
                self.unprintable
            },
        }
    }

    /// The watch after one more character.
    pub open spec fn fed(self, c: char, tables: &Tables) -> Self {
        self.counted_spec(is_unprintable_spec(c, tables.ranges@))
    }

    /// The watch has seen something of its kind, and takes part.
    pub open spec fn eligible_spec(self) -> bool {
        self.total > 0
    }

    /// The ratio that the counts amount to, in units.
    pub open spec fn ratio_spec(self) -> int {
        ratio_spec(8 * self.unprintable, self.total as int)
    }

    /// The watch before any character.
    pub fn new() -> (r: Self)
        ensures
            r == (ControlWatch { total: 0, unprintable: 0 }),
    {
        ControlWatch { total: 0, unprintable: 0 }
    }

    /// Counts one character, of which it is known whether it is unprintable.
    pub fn counted(self, unprintable: bool) -> (r: Self)
        requires
            self.sound(),
            self.total < usize::MAX,
        ensures
            r == self.counted_spec(unprintable),
            r.sound(),
    {
        ControlWatch {
            total: self.total + 1,
            unprintable: if unprintable {
                self.unprintable + 1
            } else {
                self.unprintable
            },
        }
    }

    /// Reads one character.
    pub fn feed(self, c: char, tables: &Tables) -> (r: Self)
        requires
            self.sound(),
            self.total < usize::MAX,
        ensures
            r == self.fed(c, tables),
            r.sound(),
    {
        self.counted(is_unprintable(&c, tables))
    }

    /// Whether the watch takes part.
    pub fn eligible(&self) -> (r: bool)
        ensures
            r == self.eligible_spec(),
    {
        self.total > 0
    }

    /// The ratio of the watch.
    pub fn ratio(&self) -> (r: u32)
        ensures
            r == self.ratio_spec(),
            r <= RATIO_ONE,
    {
        ratio_wide(8 * (self.unprintable as u128), self.total as u128)
    }
}

/// Two accentuated letters in a row that are the same letter under the accent,
/// or both capitals.
pub open spec fn duplicate_accent(previous: char, current: char) -> bool {
    &&& is_accentuated_spec(previous)
    &&& is_accentuated_spec(current)
    &&& (remove_accent_spec(previous) == remove_accent_spec(current) || (uppercase(previous)
        && uppercase(current)))
}

/// Suspicious duplicate accents: counts the letters that repeat the accent of
/// the letter before them. Each weighs twice among the letters.
#[derive(Clone, Copy, Debug)]
pub struct DuplicateAccentWatch {
    pub letters: usize,
    pub successive: usize,
    pub previous: Option<char>,
}

impl DuplicateAccentWatch {
    /// No more letters repeat an accent than there are letters.
    pub open spec fn sound(self) -> bool {
        self.successive <= self.letters
    }

    /// The counts are sound, and at most `n` letters were read.
    pub open spec fn bounded(self, n: int) -> bool {
        self.sound() && self.letters <= n
    }

    /// The watch after a character that is a letter or not, and that repeats
    /// the accent of the letter before it or not.
    pub open spec fn counted_spec(self, c: char, letter: bool, duplicate: bool) -> Self {
        if letter {
            DuplicateAccentWatch {
                letters: (self.letters + 1) as usize,
                successive: if duplicate {
                    (self.successive + 1) as usize
                } else {
                    self.successive
                },
                previous: Some(c),
            }
        } else {
            DuplicateAccentWatch { previous: None, ..self }
        }
    }

    /// The watch after one more character.
    pub open spec fn fed(self, c: char) -> Self {
        self.counted_spec(
            c,
            alphabetic(c),
            self.previous is Some && duplicate_accent(self.previous->0, c),
        )
    }

    /// The watch has seen something of its kind, and takes part.
    pub open spec fn eligible_spec(self) -> bool {
        self.letters > 0
    }

    /// The ratio that the counts amount to, in units.
    pub open spec fn ratio_spec(self) -> int {
        ratio_spec(2 * self.successive, self.letters as int)
    }

    /// The watch before any character.
    pub fn new() -> (r: Self)
        ensures
            r == (DuplicateAccentWatch { letters: 0, successive: 0, previous: None }),
    {
        DuplicateAccentWatch { letters: 0, successive: 0, previous: None }
    }

    /// Counts one character, of which it is known whether it is a letter and
    /// whether it repeats the accent of the letter before it.
    pub fn counted(self, c: char, letter: bool, duplicate: bool) -> (r: Self)
        requires
            self.sound(),
            self.letters < usize::MAX,
        ensures
            r == self.counted_spec(c, letter, duplicate),
            r.sound(),
    {
        if letter {
            DuplicateAccentWatch {
                letters: self.letters + 1,
                successive: if duplicate {
                    self.successive + 1
                } else {
                    self.successive
                },
                previous: Some(c),
            }
        } else {
            DuplicateAccentWatch {
                letters: self.letters,
                successive: self.successive,
                previous: None,
            }
        }
    }

    /// Reads one character.
    pub fn feed(self, c: char, tables: &Tables, classifier: &mut Classifier) -> (r: Self)
        requires
            self.sound(),
            self.letters < usize::MAX,
            old(classifier).wf(tables),
        ensures
            r == self.fed(c),
            r.sound(),
            final(classifier).wf(tables),
    {
        let letter = c.is_alphabetic();
        let mut duplicate = false;
        if letter {
            if let Some(p) = self.previous {
                if classifier.is_accentuated(&p, tables) && classifier.is_accentuated(&c, tables) {
                    duplicate = remove_accent(&p) == remove_accent(&c) || (p.is_uppercase()
                        && c.is_uppercase());
                }
            }
        }
        self.counted(c, letter, duplicate)
    }

    /// Whether the watch takes part.
    pub fn eligible(&self) -> (r: bool)
        ensures
            r == self.eligible_spec(),
    {
        self.letters > 0
    }

    /// The ratio of the watch.
    pub fn ratio(&self) -> (r: u32)
        ensures
            r == self.ratio_spec(),
            r <= RATIO_ONE,
    {
        ratio_wide(2 * (self.successive as u128), self.letters as u128)
    }
}

/// Suspicious successions of blocks: among the pairs of neighbours that are
/// no white space, the share of those that cross two blocks in a suspicious
/// way.
#[derive(Clone, Copy, Debug)]
pub struct RangeWatch {
    pub pairs: usize,
    pub suspicious: usize,
    pub previous: Option<char>,
}

impl RangeWatch {
    /// No more pairs are suspicious than there are pairs.
    pub open spec fn sound(self) -> bool {
        self.suspicious <= self.pairs
    }

    /// The counts are sound, and at most `n` pairs were read.
    pub open spec fn bounded(self, n: int) -> bool {
        self.sound() && self.pairs <= n
    }

    /// The watch after a character that is white space or not, and that
    /// makes a suspicious pair with the character before it or not.
    pub open spec fn counted_spec(self, c: char, blank: bool, suspicious: bool) -> Self {
        if blank {
            RangeWatch { previous: None, ..self }
        } else if self.previous is Some {
            RangeWatch {
                pairs: (self.pairs + 1) as usize,
                suspicious: if suspicious {
                    (self.suspicious + 1) as usize
                } else {
                    self.suspicious
                },
                previous: Some(c),
            }
        } else {
            RangeWatch { previous: Some(c), ..self }
        }
    }

    /// The watch after one more character.
    pub open spec fn fed(self, c: char, tables: &Tables) -> Self {
        self.counted_spec(
            c,
            whitespace(c),
            self.previous is Some && suspicious_pair(self.previous->0, c, tables),
        )
    }

    /// The watch has seen something of its kind, and takes part.
    pub open spec fn eligible_spec(self) -> bool {
        self.pairs > 0
    }

    /// The ratio that the counts amount to, in units.
    pub open spec fn ratio_spec(self) -> int {
        ratio_spec(self.suspicious as int, self.pairs as int)
    }

    /// The watch before any character.
    pub fn new() -> (r: Self)
        ensures
            r == (RangeWatch { pairs: 0, suspicious: 0, previous: None }),
    {
        RangeWatch { pairs: 0, suspicious: 0, previous: None }
    }

    /// Counts one character, of which it is known whether it is white space
    /// and whether it makes a suspicious pair with the character before it.
    pub fn counted(self, c: char, blank: bool, suspicious: bool) -> (r: Self)
        requires
            self.sound(),
            self.pairs < usize::MAX,
        ensures
            r == self.counted_spec(c, blank, suspicious),
            r.sound(),
    {
        if blank {
            RangeWatch { pairs: self.pairs, suspicious: self.suspicious, previous: None }
        } else if self.previous.is_some() {
            RangeWatch {
                pairs: self.pairs + 1,
                suspicious: if suspicious {
                    self.suspicious + 1
                } else {
                    self.suspicious
                },
                previous: Some(c),
            }
        } else {
            RangeWatch { pairs: self.pairs, suspicious: self.suspicious, previous: Some(c) }
        }
    }

    /// Reads one character.
    pub fn feed(self, c: char, tables: &Tables) -> (r: Self)
        requires
            self.sound(),
            self.pairs < usize::MAX,
        ensures
            r == self.fed(c, tables),
            r.sound(),
    {
        let blank = c.is_whitespace();
        let suspicious = match self.previous {
            Some(p) => !blank && is_suspicious_pair(&p, &c, tables),
            None => false,
        };
        self.counted(c, blank, suspicious)
    }

    /// Whether the watch takes part.
    pub fn eligible(&self) -> (r: bool)
        ensures
            r == self.eligible_spec(),
    {
        self.pairs > 0
    }

    /// The ratio of the watch.
    pub fn ratio(&self) -> (r: u32)
        ensures
            r == self.ratio_spec(),
            r <= RATIO_ONE,
    {
        ratio_wide(self.suspicious as u128, self.pairs as u128)
    }
}

/// What the watch of words needs to know of a character.
#[derive(Clone, Copy, Debug)]
pub struct WordMark {
    /// The character is white space.
    pub blank: bool,
    /// The character is a letter.
    pub letter: bool,
    /// The character is a small letter.
    pub lower: bool,
    /// The character is a capital.
    pub upper: bool,
    /// The character makes a suspicious pair with the letter before it.
    pub mixes: bool,
    /// The character is a sign.
    pub sign: bool,
}

/// Super weird words: among the words, which white space parts, the share of
/// weird ones. A word is weird if a capital follows a small letter in it, if
/// it holds a letter and a sign, or if two letters that follow each other in
/// it cross two blocks in a suspicious way.
#[derive(Clone, Copy, Debug)]
pub struct WordWatch {
    pub words: usize,
    pub weird: usize,
    pub open: bool,
    pub has_letter: bool,
    pub has_sign: bool,
    pub seen_lower: bool,
    pub case_mix: bool,
    pub script_mix: bool,
    pub last_letter: Option<char>,
}

impl WordWatch {
    /// No more words are weird than there are words, and the word that is
    /// being read can still be counted.
    pub open spec fn sound(self) -> bool {
        self.weird <= self.words && (self.open ==> self.words < usize::MAX)
    }

    /// The counts are sound, and at most `n` words were begun.
    pub open spec fn bounded(self, n: int) -> bool {
        self.sound() && self.words + if self.open {
            1int
        } else {
            0int
        } <= n
    }

    /// The word that is being read is weird.
    pub open spec fn open_word_weird(self) -> bool {
        self.case_mix || (self.has_letter && self.has_sign) || self.script_mix
    }

    /// The counts once the word that is being read has been closed.
    pub open spec fn closed(self) -> Self {
        if self.open {
            WordWatch {
                words: (self.words + 1) as usize,
                weird: if self.open_word_weird() {
                    (self.weird + 1) as usize
                } else {
                    self.weird
                },
                open: false,
                has_letter: false,
                has_sign: false,
                seen_lower: false,
                case_mix: false,
                script_mix: false,
                last_letter: None,
            }
        } else {
            self
        }
    }

    /// The watch after a character of which the marks are known.
    pub open spec fn counted_spec(self, c: char, mark: WordMark) -> Self {
        if mark.blank {
            self.closed()
        } else if mark.letter {
            WordWatch {
                open: true,
                has_letter: true,
                seen_lower: self.seen_lower || mark.lower,
                case_mix: self.case_mix || (self.seen_lower && mark.upper),
                script_mix: self.script_mix || (self.last_letter is Some && mark.mixes),
                last_letter: Some(c),
                ..self
            }
        } else {
            WordWatch {
                open: true,
                has_sign: self.has_sign || mark.sign,
                last_letter: None,
                ..self
            }
        }
    }

    /// What the watch needs to know of a character.
    pub open spec fn mark_of(self, c: char, tables: &Tables) -> WordMark {
        WordMark {
            blank: whitespace(c),
            letter: alphabetic(c),
            lower: lowercase(c),
            upper: uppercase(c),
            mixes: self.last_letter is Some && suspicious_pair(self.last_letter->0, c, tables),
            sign: is_sign_spec(c, tables),
        }
    }

    /// The watch after one more character.
    pub open spec fn fed(self, c: char, tables: &Tables) -> Self {
        self.counted_spec(c, self.mark_of(c, tables))
    }

    /// The watch has seen something of its kind, and takes part.
    pub open spec fn eligible_spec(self) -> bool {
        self.closed().words >= WORD_FLOOR
    }

    /// The ratio that the counts amount to, in units.
    pub open spec fn ratio_spec(self) -> int {
        ratio_spec(self.closed().weird as int, self.closed().words as int)
    }

    /// The watch before any character.
    pub fn new() -> (r: Self)
        ensures
            r == (WordWatch {
                words: 0,
                weird: 0,
                open: false,
                has_letter: false,
                has_sign: false,
                seen_lower: false,
                case_mix: false,
                script_mix: false,
                last_letter: None,
            }),
    {
        WordWatch {
            words: 0,
            weird: 0,
            open: false,
            has_letter: false,
            has_sign: false,
            seen_lower: false,
            case_mix: false,
            script_mix: false,
            last_letter: None,
        }
    }

    /// Closes the word that is being read.
    pub fn close(self) -> (r: Self)
        requires
            self.sound(),
        ensures
            r == self.closed(),
            r.sound(),
            !r.open,
    {
        if !self.open {
            return self;
        }
        let weird_now = self.case_mix || (self.has_letter && self.has_sign) || self.script_mix;
        WordWatch {
            words: self.words + 1,
            weird: if weird_now {
                self.weird + 1
            } else {
                self.weird
            },
            open: false,
            has_letter: false,
            has_sign: false,
            seen_lower: false,
            case_mix: false,
            script_mix: false,
            last_letter: None,
        }
    }

    /// Counts one character of which the marks are known.
    pub fn counted(self, c: char, mark: WordMark) -> (r: Self)
        requires
            self.sound(),
            self.words < usize::MAX,
        ensures
            r == self.counted_spec(c, mark),
            r.sound(),
    {
        if mark.blank {
            return self.close();
        }
        let mut next = self;
        next.open = true;
        if mark.letter {
            next.has_letter = true;
            next.seen_lower = self.seen_lower || mark.lower;
            next.case_mix = self.case_mix || (self.seen_lower && mark.upper);
            next.script_mix = self.script_mix || (self.last_letter.is_some() && mark.mixes);
            next.last_letter = Some(c);
        } else {
            next.has_sign = self.has_sign || mark.sign;
            next.last_letter = None;
        }
        next
    }

    /// Reads one character.
    pub fn feed(self, c: char, tables: &Tables) -> (r: Self)
        requires
            self.sound(),
            self.words < usize::MAX,
        ensures
            r == self.fed(c, tables),
            r.sound(),
    {
        let blank = c.is_whitespace();
        let letter = c.is_alphabetic();
        let mixes = match self.last_letter {
            Some(p) => !blank && letter && !self.script_mix && is_suspicious_pair(&p, &c, tables),
            None => false,
        };
        let sign = !blank && !letter && !self.has_sign && is_sign(&c, tables);
        let mark = WordMark {
            blank,
            letter,
            lower: c.is_lowercase(),
            upper: c.is_uppercase(),
            mixes,
            sign,
        };
        self.counted(c, mark)
    }

    /// Whether the watch takes part.
    pub fn eligible(&self) -> (r: bool)
        requires
            self.sound(),
        ensures
            r == self.eligible_spec(),
    {
        self.close().words >= WORD_FLOOR
    }

    /// The ratio of the watch.
    pub fn ratio(&self) -> (r: u32)
        requires
            self.sound(),
        ensures
            r == self.ratio_spec(),
            r <= RATIO_ONE,
    {
        let done = self.close();
        ratio_wide(done.weird as u128, done.words as u128)
    }
}

/// One of the marks that end a sentence in Latin script.
pub open spec fn is_latin_stop(c: char) -> bool {
    c == '.' || c == '!' || c == '?'
}

/// Invalid stops in CJK text: counts the Latin marks that end a sentence right
/// behind a CJK character, where CJK text has marks of its own, against the
/// CJK characters.
#[derive(Clone, Copy, Debug)]
pub struct CjkStopWatch {
    pub cjk: usize,
    pub stops: usize,
    pub after_cjk: bool,
}

impl CjkStopWatch {
    /// Every stop that was counted stood behind a CJK character of its own.
    pub open spec fn sound(self) -> bool {
        self.stops + if self.after_cjk {
            1int
        } else {
            0int
        } <= self.cjk
    }

    /// The counts are sound, and at most `n` CJK characters were read.
    pub open spec fn bounded(self, n: int) -> bool {
        self.sound() && self.cjk <= n
    }

    /// The watch after a character that is a CJK character, or a Latin stop,
    /// or neither.
    pub open spec fn counted_spec(self, cjk: bool, stop: bool) -> Self {
        if cjk {
            CjkStopWatch { cjk: (self.cjk + 1) as usize, after_cjk: true, ..self }
        } else {
            CjkStopWatch {
                stops: if self.after_cjk && stop {
                    (self.stops + 1) as usize
                } else {
                    self.stops
                },
                after_cjk: false,
                ..self
            }
        }
    }

    /// The watch after one more character.
    pub open spec fn fed(self, c: char) -> Self {
        self.counted_spec(is_cjk_spec(c), is_latin_stop(c))
    }

    /// The watch has seen something of its kind, and takes part.
    pub open spec fn eligible_spec(self) -> bool {
        self.cjk > 0
    }

    /// The ratio that the counts amount to, in units.
    pub open spec fn ratio_spec(self) -> int {
        ratio_spec(self.stops as int, self.cjk as int)
    }

    /// The watch before any character.
    pub fn new() -> (r: Self)
        ensures
            r == (CjkStopWatch { cjk: 0, stops: 0, after_cjk: false }),
    {
        CjkStopWatch { cjk: 0, stops: 0, after_cjk: false }
    }

    /// Counts one character, of which it is known whether it is a CJK
    /// character and whether it is a Latin stop.
    pub fn counted(self, cjk: bool, stop: bool) -> (r: Self)
        requires
            self.sound(),
            self.cjk < usize::MAX,
        ensures
            r == self.counted_spec(cjk, stop),
            r.sound(),
    {
        if cjk {
            CjkStopWatch { cjk: self.cjk + 1, stops: self.stops, after_cjk: true }
        } else {
            CjkStopWatch {
                cjk: self.cjk,
                stops: if self.after_cjk && stop {
                    self.stops + 1
                } else {
                    self.stops
                },
                after_cjk: false,
            }
        }
    }

    /// Reads one character.
    pub fn feed(self, c: char, tables: &Tables, classifier: &mut Classifier) -> (r: Self)
        requires
            self.sound(),
            self.cjk < usize::MAX,
            old(classifier).wf(tables),
        ensures
            r == self.fed(c),
            r.sound(),
            final(classifier).wf(tables),
    {
        let cjk = classifier.is_cjk(&c, tables);
        self.counted(cjk, c == '.' || c == '!' || c == '?')
    }

    /// Whether the watch takes part.
    pub fn eligible(&self) -> (r: bool)
        ensures
            r == self.eligible_spec(),
    {
        self.cjk > 0
    }

    /// The ratio of the watch.
    pub fn ratio(&self) -> (r: u32)
        ensures
            r == self.ratio_spec(),
            r <= RATIO_ONE,
    {
        ratio_wide(self.stops as u128, self.cjk as u128)
    }
}

/// A code point beyond the basic plane that is no emoticon: the planes of
/// archaic scripts and rare signs.
pub open spec fn is_archaic_spec(c: char, tables: &Tables) -> bool {
    c as u32 >= 0x10000 && !is_emoticon_spec(c, tables.ranges@)
}

/// Archaic planes: the share of the code points that lie in planes which
/// modern text hardly uses.
#[derive(Clone, Copy, Debug)]
pub struct ArchaicWatch {
    pub total: usize,
    pub rare: usize,
}

impl ArchaicWatch {
    /// No count is above the number of characters read.
    pub open spec fn sound(self) -> bool {
        self.rare <= self.total
    }

    /// The counts are sound, and at most `n` characters were read.
    pub open spec fn bounded(self, n: int) -> bool {
        self.sound() && self.total <= n
    }

    /// The watch after a character that is rare or not.
    pub open spec fn counted_spec(self, rare: bool) -> Self {
        ArchaicWatch {
            total: (self.total + 1) as usize,
            rare: if rare {
                (self.rare + 1) as usize
            } else {
                self.rare
            },
        }
    }

    /// The watch after one more character.
    pub open spec fn fed(self, c: char, tables: &Tables) -> Self {
        self.counted_spec(is_archaic_spec(c, tables))
    }

    /// The watch has seen something of its kind, and takes part.
    pub open spec fn eligible_spec(self) -> bool {
        self.total > 0
    }

    /// The ratio that the counts amount to, in units.
    pub open spec fn ratio_spec(self) -> int {
        ratio_spec(self.rare as int, self.total as int)
    }

    /// The watch before any character.
    pub fn new() -> (r: Self)
        ensures
            r == (ArchaicWatch { total: 0, rare: 0 }),
    {
        ArchaicWatch { total: 0, rare: 0 }
    }

    /// Counts one character, of which it is known whether it is rare.
    pub fn counted(self, rare: bool) -> (r: Self)
        requires
            self.sound(),
            self.total < usize::MAX,
        ensures
            r == self.counted_spec(rare),
            r.sound(),
    {
        ArchaicWatch {
            total: self.total + 1,
            rare: if rare {
                self.rare + 1
            } else {
                self.rare
            },
        }
    }

    /// Reads one character.
    pub fn feed(self, c: char, tables: &Tables) -> (r: Self)
        requires
            self.sound(),
            self.total < usize::MAX,
        ensures
            r == self.fed(c, tables),
            r.sound(),
    {
        let code: u32 = c as u32;
        self.counted(code >= 0x10000 && !is_emoticon(&c, tables))
    }

    /// Whether the watch takes part.
    pub fn eligible(&self) -> (r: bool)
        ensures
            r == self.eligible_spec(),
    {
        self.total > 0
    }

    /// The ratio of the watch.
    pub fn ratio(&self) -> (r: u32)
        ensures
            r == self.ratio_spec(),
            r <= RATIO_ONE,
    {
        ratio_wide(self.rare as u128, self.total as u128)
    }
}

/// The eight watches, in the order in which they are asked.
#[derive(Clone, Copy, Debug)]
pub struct MessDetector {
    /// How many characters were read.
    pub read: usize,
    pub symbols: SymbolWatch,
    pub accents: AccentWatch,
    pub controls: ControlWatch,
    pub duplicates: DuplicateAccentWatch,
    pub ranges: RangeWatch,
    pub words: WordWatch,
    pub cjk_stops: CjkStopWatch,
    pub archaic: ArchaicWatch,
}

/// The part that one watch has in the mess: its ratio if it takes part, else
/// nothing.
pub open spec fn part(eligible: bool, ratio: int) -> int {
    if eligible {
        ratio
    } else {
        0
    }
}

/// The larger of two numbers.
pub open spec fn larger(a: int, b: int) -> int {
    if a >= b {
        a
    } else {
        b
    }
}

impl MessDetector {
    /// The watches before any character.
    pub open spec fn start() -> Self {
        MessDetector {
            read: 0,
            symbols: SymbolWatch { total: 0, punctuation: 0, symbols: 0 },
            accents: AccentWatch { letters: 0, accentuated: 0 },
            controls: ControlWatch { total: 0, unprintable: 0 },
            duplicates: DuplicateAccentWatch { letters: 0, successive: 0, previous: None },
            ranges: RangeWatch { pairs: 0, suspicious: 0, previous: None },
            words: WordWatch {
                words: 0,
                weird: 0,
                open: false,
                has_letter: false,
                has_sign: false,
                seen_lower: false,
                case_mix: false,
                script_mix: false,
                last_letter: None,
            },
            cjk_stops: CjkStopWatch { cjk: 0, stops: 0, after_cjk: false },
            archaic: ArchaicWatch { total: 0, rare: 0 },
        }
    }

    /// The counts of every watch are sound, and none is above the number of
    /// characters read.
    pub open spec fn wf(self) -> bool {
        self.bounded(self.read as int)
    }

    /// The counts of every watch are sound, and none is above `n`.
    pub open spec fn bounded(self, n: int) -> bool {
        &&& self.symbols.bounded(n)
        &&& self.accents.bounded(n)
        &&& self.controls.bounded(n)
        &&& self.duplicates.bounded(n)
        &&& self.ranges.bounded(n)
        &&& self.words.bounded(n)
        &&& self.cjk_stops.bounded(n)
        &&& self.archaic.bounded(n)
    }

    /// The watches after one more character.
    pub open spec fn fed(self, c: char, tables: &Tables) -> Self {
        MessDetector {
            read: (self.read + 1) as usize,
            symbols: self.symbols.fed(c, tables),
            accents: self.accents.fed(c),
            controls: self.controls.fed(c, tables),
            duplicates: self.duplicates.fed(c),
            ranges: self.ranges.fed(c, tables),
            words: self.words.fed(c, tables),
            cjk_stops: self.cjk_stops.fed(c),
            archaic: self.archaic.fed(c, tables),
        }
    }

    /// The mess: the largest ratio among the watches that take part.
    pub open spec fn mess_spec(self) -> int {
        larger(
            part(self.symbols.eligible_spec(), self.symbols.ratio_spec()),
            larger(
                part(self.accents.eligible_spec(), self.accents.ratio_spec()),
                larger(
                    part(self.controls.eligible_spec(), self.controls.ratio_spec()),
                    larger(
                        part(self.duplicates.eligible_spec(), self.duplicates.ratio_spec()),
                        larger(
                            part(self.ranges.eligible_spec(), self.ranges.ratio_spec()),
                            larger(
                                part(self.words.eligible_spec(), self.words.ratio_spec()),
                                larger(
                                    part(
                                        self.cjk_stops.eligible_spec(),
                                        self.cjk_stops.ratio_spec(),
                                    ),
                                    part(self.archaic.eligible_spec(), self.archaic.ratio_spec()),
                                ),
                            ),
                        ),
                    ),
                ),
            ),
        )
    }

    /// The watch before any character.
    pub fn new() -> (r: Self)
        ensures
            r == Self::start(),
            r.wf(),
    {
        MessDetector {
            read: 0,
            symbols: SymbolWatch::new(),
            accents: AccentWatch::new(),
            controls: ControlWatch::new(),
            duplicates: DuplicateAccentWatch::new(),
            ranges: RangeWatch::new(),
            words: WordWatch::new(),
            cjk_stops: CjkStopWatch::new(),
            archaic: ArchaicWatch::new(),
        }
    }

    /// Hands one character to every watch.
    pub fn feed(self, c: char, tables: &Tables, classifier: &mut Classifier) -> (r: Self)
        requires
            self.wf(),
            self.read < usize::MAX,
            old(classifier).wf(tables),
        ensures
            r == self.fed(c, tables),
            r.wf(),
            final(classifier).wf(tables),
    {
        let symbols = self.symbols.feed(c, tables, classifier);
        let accents = self.accents.feed(c, tables, classifier);
        let controls = self.controls.feed(c, tables);
        let duplicates = self.duplicates.feed(c, tables, classifier);
        let ranges = self.ranges.feed(c, tables);
        let words = self.words.feed(c, tables);
        let cjk_stops = self.cjk_stops.feed(c, tables, classifier);
        let archaic = self.archaic.feed(c, tables);
        MessDetector {
            read: self.read + 1,
            symbols,
            accents,
            controls,
            duplicates,
            ranges,
            words,
            cjk_stops,
            archaic,
        }
    }

    /// The mess of what has been read.
    pub fn mess(&self) -> (r: u32)
        requires
            self.wf(),
        ensures
            r == self.mess_spec(),
            r <= RATIO_ONE,
    {
        let mut worst: u32 = 0;
        if self.archaic.eligible() {
            worst = ratio_max(self.archaic.ratio(), worst);
        }
        if self.cjk_stops.eligible() {
            worst = ratio_max(self.cjk_stops.ratio(), worst);
        }
        if self.words.eligible() {
            worst = ratio_max(self.words.ratio(), worst);
        }
        if self.ranges.eligible() {
            worst = ratio_max(self.ranges.ratio(), worst);
        }
        if self.duplicates.eligible() {
            worst = ratio_max(self.duplicates.ratio(), worst);
        }
        if self.controls.eligible() {
            worst = ratio_max(self.controls.ratio(), worst);
        }
        if self.accents.eligible() {
            worst = ratio_max(self.accents.ratio(), worst);
        }
        if self.symbols.eligible() {
            worst = ratio_max(self.symbols.ratio(), worst);
        }
        proof {
            lemma_ratio_bounds(
                self.symbols.punctuation + 2 * self.symbols.symbols,
                self.symbols.total as int,
            );
            lemma_ratio_bounds(self.accents.accentuated as int, self.accents.letters as int);
            lemma_ratio_bounds(8 * self.controls.unprintable, self.controls.total as int);
            lemma_ratio_bounds(2 * self.duplicates.successive, self.duplicates.letters as int);
            lemma_ratio_bounds(self.ranges.suspicious as int, self.ranges.pairs as int);
            lemma_ratio_bounds(
                self.words.closed().weird as int,
                self.words.closed().words as int,
            );
            lemma_ratio_bounds(self.cjk_stops.stops as int, self.cjk_stops.cjk as int);
            lemma_ratio_bounds(self.archaic.rare as int, self.archaic.total as int);
        }
        worst
    }
}

/// The watches after the first `n` characters of a text.
pub open spec fn watches_after(text: Seq<char>, n: int, tables: &Tables) -> MessDetector
    decreases n,
{
    if n <= 0 {
        MessDetector::start()
    } else {
        watches_after(text, n - 1, tables).fed(text[n - 1], tables)
    }
}

/// How many characters lie between two looks at the mess.
pub open spec fn look_interval(len: int) -> int {
    if len < 512 {
        32
    } else if len <= 1024 {
        64
    } else {
        128
    }
}

/// The mess at the first look, among the first `n` characters, that stands at
/// or above `bound`. A look is taken after every `look_interval` characters.
pub open spec fn early_stop(text: Seq<char>, n: int, bound: int, tables: &Tables) -> Option<int>
    decreases n,
{
    if n <= 0 {
        None
    } else {
        match early_stop(text, n - 1, bound, tables) {
            Some(mess) => Some(mess),
            None => {
                let mess = watches_after(text, n, tables).mess_spec();
                if n % look_interval(text.len() as int) == 0 && mess >= bound {
                    Some(mess)
                } else {
                    None
                }
            },
        }
    }
}

/// Every one of the first `n` characters is white space.
pub open spec fn blank_upto(text: Seq<char>, n: int) -> bool {
    forall|k: int| 0 <= k < n && k < text.len() ==> whitespace(#[trigger] text[k])
}

/// The mess of a text, between 0 and 1 in units of a ratio.
///
/// A text of at most one character has no mess. A text of white space alone
/// is all mess if it is longer than a small sequence, and none otherwise. Else
/// the watches read the text; the reading stops at the first look at which the
/// mess stands above the threshold by the margin, and yields the mess then.
pub open spec fn mess_ratio_spec(text: Seq<char>, threshold: int, tables: &Tables) -> int {
    if text.len() <= 1 {
        0
    } else if blank_upto(text, text.len() as int) {
        if text.len() > TOO_SMALL_SEQUENCE {
            RATIO_ONE as int
        } else {
            0
        }
    } else {
        match early_stop(text, text.len() as int, threshold + EARLY_STOP_MARGIN, tables) {
            Some(mess) => mess,
            None => watches_after(text, text.len() as int, tables).mess_spec(),
        }
    }
}

/// Whether a text holds white space alone.
pub fn is_blank(text: &[char]) -> (r: bool)
    ensures
        r == blank_upto(text@, text@.len() as int),
{
    let mut i: usize = 0;
    while i < text.len()
        invariant
            i <= text.len(),
            blank_upto(text@, i as int),
        decreases text.len() - i,
    {
        if !text[i].is_whitespace() {
            return false;
        }
        i += 1;
    }
    true
}

/// Computes the mess of a text that is held as characters.
pub fn mess_ratio_chars(text: &[char], maximum_threshold: Option<u32>, tables: &Tables) -> (r: u32)
    ensures
        r == mess_ratio_spec(
            text@,
            match maximum_threshold {
                Some(t) => t as int,
                None => DEFAULT_MESS_THRESHOLD as int,
            },
            tables,
        ),
        r <= RATIO_ONE,
{
    let mut classifier = Classifier::new();
    mess_ratio_with(text, maximum_threshold, tables, &mut classifier)
}

/// Computes the mess of a text that is held as characters, with the caches
/// of a classifier at hand.
pub fn mess_ratio_with(
    text: &[char],
    maximum_threshold: Option<u32>,
    tables: &Tables,
    classifier: &mut Classifier,
) -> (r: u32)
    requires
        old(classifier).wf(tables),
    ensures
        final(classifier).wf(tables),
        r == mess_ratio_spec(
            text@,
            match maximum_threshold {
                Some(t) => t as int,
                None => DEFAULT_MESS_THRESHOLD as int,
            },
            tables,
        ),
        r <= RATIO_ONE,
{
    let threshold: u32 = match maximum_threshold {
        Some(t) => t,
        None => DEFAULT_MESS_THRESHOLD,
    };
    let len = text.len();
    if len <= 1 {
        return 0;
    }
    if is_blank(text) {
        return if len > TOO_SMALL_SEQUENCE {
            RATIO_ONE
        } else {
            0
        };
    }
    let bound: u64 = threshold as u64 + EARLY_STOP_MARGIN as u64;
    let interval: usize = if len < 512 {
        32
    } else if len <= 1024 {
        64
    } else {
        128
    };
    let mut watches = MessDetector::new();
    let mut i: usize = 0;
    while i < len
        invariant
            i <= len,
            len == text.len(),
            interval == look_interval(len as int),
            bound == threshold + EARLY_STOP_MARGIN,
            threshold == match maximum_threshold {
                Some(t) => t,
                None => DEFAULT_MESS_THRESHOLD,
            },
            watches == watches_after(text@, i as int, tables),
            watches.wf(),
            watches.read == i,
            classifier.wf(tables),
            early_stop(text@, i as int, bound as int, tables) is None,
            !blank_upto(text@, text@.len() as int),
            len > 1,
        decreases len - i,
    {
        watches = watches.feed(text[i], tables, classifier);
        i += 1;
        if i % interval == 0 {
            let mess = watches.mess();
            if mess as u64 >= bound {
                proof {
                    lemma_early_stop_stays(text@, i as int, len as int, bound as int, tables);
                }
                return mess;
            }
        }
    }
    watches.mess()
}

/// A reading that has stopped stays stopped, with the same mess.
pub proof fn lemma_early_stop_stays(
    text: Seq<char>,
    n: int,
    m: int,
    bound: int,
    tables: &Tables,
)
    requires
        0 <= n <= m,
        early_stop(text, n, bound, tables) is Some,
    ensures
        early_stop(text, m, bound, tables) == early_stop(text, n, bound, tables),
    decreases m - n,
{
    if n < m {
        lemma_early_stop_stays(text, n, m - 1, bound, tables);
    }
}

/// Computes the mess of a decoded text. The reading may stop early once the
/// mess stands well above `maximum_threshold`, which is one fifth where the
/// caller names none.
pub fn mess_ratio(decoded_sequence: &str, maximum_threshold: Option<u32>, tables: &Tables) -> (r:
    u32)
    ensures
        r == mess_ratio_spec(
            decoded_sequence@,
            match maximum_threshold {
                Some(t) => t as int,
                None => DEFAULT_MESS_THRESHOLD as int,
            },
            tables,
        ),
        r <= RATIO_ONE,
{
    let text = chars_of(decoded_sequence);
    mess_ratio_chars(text.as_slice(), maximum_threshold, tables)
}

} // verus!
