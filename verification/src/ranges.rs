//! The Unicode blocks: which block a character lies in, which blocks a text
//! draws from, and which steps from one block to another are suspicious.

use crate::assets::{Tables, UnicodeRange};
use crate::text::{
    any_contained,
    chars_eq,
    chars_of,
    contains_chars,
    contains_seq,
    list_contains,
    str_contains,
    str_eq,
    views,
};
use crate::unicode::whitespace;
use vstd::prelude::*;

verus! {

/// The index of the first block at or after `from` that holds `code`.
pub open spec fn range_index_from(ranges: Seq<UnicodeRange>, code: u32, from: int) -> Option<int>
    decreases ranges.len() - from,
{
    if from < 0 || from >= ranges.len() {
        None
    } else if ranges[from].holds(code) {
        Some(from)
    } else {
        range_index_from(ranges, code, from + 1)
    }
}

/// The name of the first block that holds the character.
pub open spec fn unicode_range_spec(c: char, ranges: Seq<UnicodeRange>) -> Option<Seq<char>> {
    match range_index_from(ranges, c as u32, 0) {
        Some(i) => Some(ranges[i].name@),
        None => None,
    }
}

/// What `range_index_from` finds is the first block that holds the code point.
pub proof fn lemma_range_index(ranges: Seq<UnicodeRange>, code: u32, from: int)
    requires
        0 <= from,
    ensures
        match range_index_from(ranges, code, from) {
            Some(i) => {
                &&& from <= i < ranges.len()
                &&& ranges[i].holds(code)
                &&& forall|j: int| from <= j < i ==> !(#[trigger] ranges[j]).holds(code)
            },
            None => forall|j: int| from <= j < ranges.len() ==> !(#[trigger] ranges[j]).holds(code),
        },
    decreases ranges.len() - from,
{
    if from < ranges.len() && !ranges[from].holds(code) {
        lemma_range_index(ranges, code, from + 1);
    }
}

/// A block is reported for a character only if its interval holds the
/// character, and it is the first such block of the table.
pub proof fn lemma_unicode_range_holds(c: char, ranges: Seq<UnicodeRange>)
    ensures
        match unicode_range_spec(c, ranges) {
            Some(name) => exists|i: int|
                0 <= i < ranges.len() && (#[trigger] ranges[i]).name@ == name && ranges[i].holds(
                    c as u32,
                ) && forall|j: int| 0 <= j < i ==> !(#[trigger] ranges[j]).holds(c as u32),
            None => forall|j: int| 0 <= j < ranges.len() ==> !(#[trigger] ranges[j]).holds(c as u32),
        },
{
    lemma_range_index(ranges, c as u32, 0);
}

/// Retrieves the name of the Unicode block of a character: the first block of
/// the table whose interval holds it.
pub fn unicode_range<'a>(character: &char, tables: &'a Tables) -> (r: Option<&'a str>)
    ensures
        r is Some == unicode_range_spec(*character, tables.ranges@) is Some,
        r matches Some(name) ==> unicode_range_spec(*character, tables.ranges@) == Some(name@),
        r matches Some(name) ==> exists|i: int|
            0 <= i < tables.ranges@.len() && (#[trigger] tables.ranges@[i]).name@ == name@
                && tables.ranges@[i].holds(*character as u32),
{
    let char_code: u32 = *character as u32;
    let mut i: usize = 0;
    while i < tables.ranges.len()
        invariant
            i <= tables.ranges.len(),
            char_code == *character as u32,
            range_index_from(tables.ranges@, char_code, 0) == range_index_from(
                tables.ranges@,
                char_code,
                i as int,
            ),
        decreases tables.ranges.len() - i,
    {
        let range = &tables.ranges[i];
        if range.first <= char_code && char_code <= range.last {
            return Some(range.name.as_str());
        }
        i += 1;
    }
    None
}

/// The words met in the first `n` characters: those already closed by white
/// space, and the one still open.
pub open spec fn scan_words(s: Seq<char>, n: int) -> (Seq<Seq<char>>, Seq<char>)
    decreases n,
{
    if n <= 0 {
        (seq![], seq![])
    } else {
        let (done, open) = scan_words(s, n - 1);
        if whitespace(s[n - 1]) {
            if open.len() > 0 {
                (done.push(open), seq![])
            } else {
                (done, open)
            }
        } else {
            (done, open.push(s[n - 1]))
        }
    }
}

/// The words of a text: its maximal runs of characters that are no white
/// space, in order.
pub open spec fn words_of(s: Seq<char>) -> Seq<Seq<char>> {
    let (done, open) = scan_words(s, s.len() as int);
    if open.len() > 0 {
        done.push(open)
    } else {
        done
    }
}

/// The two names have a word in common that is no secondary keyword.
pub open spec fn share_primary_word(a: Seq<char>, b: Seq<char>, secondary: Seq<Seq<char>>) -> bool {
    exists|i: int, j: int|
        0 <= i < words_of(a).len() && 0 <= j < words_of(b).len() && #[trigger] words_of(a)[i]
            == #[trigger] words_of(b)[j] && !secondary.contains(words_of(a)[i])
}

/// One of the two names is a Japanese syllabary.
pub open spec fn is_kana_range(name: Seq<char>) -> bool {
    name == "Hiragana"@ || name == "Katakana"@
}

/// Whether a step from a character of block `a` to one of block `b` is
/// unnatural in real text.
pub open spec fn suspicious_succession(
    a: Option<Seq<char>>,
    b: Option<Seq<char>>,
    secondary: Seq<Seq<char>>,
) -> bool {
    match (a, b) {
        (Some(a), Some(b)) => {
            let latin_a = contains_seq(a, "Latin"@);
            let latin_b = contains_seq(b, "Latin"@);
            let cjk_a = contains_seq(a, "CJK"@);
            let cjk_b = contains_seq(b, "CJK"@);
            let marks_a = contains_seq(a, "Punctuation"@) || contains_seq(a, "Forms"@);
            let marks_b = contains_seq(b, "Punctuation"@) || contains_seq(b, "Forms"@);
            let hangul = contains_seq(a, "Hangul"@) || contains_seq(b, "Hangul"@);
            if a == b || (latin_a && latin_b) || contains_seq(a, "Emoticons"@) || contains_seq(
                b,
                "Emoticons"@,
            ) {
                false
            } else if (latin_a && contains_seq(b, "Combining"@)) || (latin_b && contains_seq(
                a,
                "Combining"@,
            )) {
                false
            } else if share_primary_word(a, b, secondary) {
                false
            } else if is_kana_range(a) && is_kana_range(b) {
                false
            } else if (is_kana_range(a) && !is_kana_range(b) && cjk_b) || (is_kana_range(b)
                && !is_kana_range(a) && cjk_a) {
                false
            } else if hangul && (cjk_a || cjk_b || a == "Basic Latin"@ || b == "Basic Latin"@) {
                false
            } else if (cjk_a && marks_b) || (cjk_b && marks_a) {
                false
            } else {
                true
            }
        },
        _ => true,
    }
}

/// The verdict on a succession does not depend on the order of the two
/// blocks.
pub proof fn lemma_suspicious_succession_symmetric(
    a: Option<Seq<char>>,
    b: Option<Seq<char>>,
    secondary: Seq<Seq<char>>,
)
    ensures
        suspicious_succession(a, b, secondary) == suspicious_succession(b, a, secondary),
{
    if a is Some && b is Some {
        let x = a->0;
        let y = b->0;
        if share_primary_word(x, y, secondary) {
            let (i, j) = choose|i: int, j: int|
                0 <= i < words_of(x).len() && 0 <= j < words_of(y).len() && #[trigger] words_of(x)[i]
                    == #[trigger] words_of(y)[j] && !secondary.contains(words_of(x)[i]);
            assert(words_of(y)[j] == words_of(x)[i]);
            assert(share_primary_word(y, x, secondary));
        }
        if share_primary_word(y, x, secondary) {
            let (i, j) = choose|i: int, j: int|
                0 <= i < words_of(y).len() && 0 <= j < words_of(x).len() && #[trigger] words_of(y)[i]
                    == #[trigger] words_of(x)[j] && !secondary.contains(words_of(y)[i]);
            assert(words_of(x)[j] == words_of(y)[i]);
            assert(share_primary_word(x, y, secondary));
        }
    }
}

/// The view of a list of words.
pub open spec fn word_views(words: Seq<Vec<char>>) -> Seq<Seq<char>> {
    words.map_values(|w: Vec<char>| w@)
}

/// Splits a text at white space.
pub fn split_words(text: &[char]) -> (words: Vec<Vec<char>>)
    ensures
        word_views(words@) == words_of(text@),
{
    let mut words: Vec<Vec<char>> = Vec::new();
    let mut open: Vec<char> = Vec::new();
    let mut i: usize = 0;
    while i < text.len()
        invariant
            i <= text.len(),
            (word_views(words@), open@) == scan_words(text@, i as int),
        decreases text.len() - i,
    {
        let c = text[i];
        if c.is_whitespace() {
            if open.len() > 0 {
                let ghost before = words@;
                words.push(open);
                assert(word_views(words@) =~= word_views(before).push(open@));
                open = Vec::new();
            }
        } else {
            open.push(c);
        }
        i += 1;
    }
    if open.len() > 0 {
        let ghost before = words@;
        words.push(open);
        assert(word_views(words@) =~= word_views(before).push(open@));
    }
    words
}

/// Whether two block names have a word in common that is no secondary
/// keyword.
fn have_primary_word_in_common(range_a: &str, range_b: &str, tables: &Tables) -> (r: bool)
    ensures
        r == share_primary_word(range_a@, range_b@, views(tables.secondary_keywords@)),
{
    let a = chars_of(range_a);
    let b = chars_of(range_b);
    let words_a = split_words(a.as_slice());
    let words_b = split_words(b.as_slice());
    let ghost secondary = views(tables.secondary_keywords@);
    let mut i: usize = 0;
    while i < words_a.len()
        invariant
            i <= words_a.len(),
            word_views(words_a@) == words_of(range_a@),
            word_views(words_b@) == words_of(range_b@),
            secondary == views(tables.secondary_keywords@),
            forall|x: int, y: int|
                0 <= x < i && 0 <= y < words_of(range_b@).len() ==> !(#[trigger] words_of(
                    range_a@,
                )[x] == #[trigger] words_of(range_b@)[y] && !secondary.contains(
                    words_of(range_a@)[x],
                )),
        decreases words_a.len() - i,
    {
        let word = &words_a[i];
        assert(word_views(words_a@)[i as int] == word@);
        if !keyword_listed(word.as_slice(), &tables.secondary_keywords) {
            let mut j: usize = 0;
            while j < words_b.len()
                invariant
                    j <= words_b.len(),
                    0 <= i < words_a.len(),
                    word_views(words_a@) == words_of(range_a@),
                    word@ == words_of(range_a@)[i as int],
                    !secondary.contains(word@),
                    secondary == views(tables.secondary_keywords@),
                    word_views(words_b@) == words_of(range_b@),
                    forall|y: int| 0 <= y < j ==> word@ != #[trigger] words_of(range_b@)[y],
                decreases words_b.len() - j,
            {
                assert(word_views(words_b@)[j as int] == words_b@[j as int]@);
                if chars_eq(word.as_slice(), words_b[j].as_slice()) {
                    assert(word_views(words_a@).len() == words_a@.len());
                    assert(word_views(words_b@).len() == words_b@.len());
                    assert(words_of(range_a@)[i as int] == words_of(range_b@)[j as int]);
                    assert(!secondary.contains(words_of(range_a@)[i as int]));
                    return true;
                }
                j += 1;
            }
        }
        i += 1;
    }
    false
}

/// Whether the word is one of the keywords.
fn keyword_listed(word: &[char], keywords: &Vec<String>) -> (r: bool)
    ensures
        r == views(keywords@).contains(word@),
{
    let mut i: usize = 0;
    while i < keywords.len()
        invariant
            i <= keywords.len(),
            forall|k: int| 0 <= k < i ==> views(keywords@)[k] != word@,
        decreases keywords.len() - i,
    {
        let k = chars_of(keywords[i].as_str());
        if chars_eq(word, k.as_slice()) {
            assert(views(keywords@)[i as int] == word@);
            return true;
        }
        i += 1;
    }
    false
}

/// Whether the name of a block marks it as secondary: it holds one of the
/// secondary keywords.
pub fn is_unicode_range_secondary(range_name: String, tables: &Tables) -> (r: bool)
    ensures
        r == any_contained(range_name@, views(tables.secondary_keywords@)),
{
    let name = chars_of(range_name.as_str());
    let mut i: usize = 0;
    while i < tables.secondary_keywords.len()
        invariant
            i <= tables.secondary_keywords.len(),
            name@ == range_name@,
            forall|k: int|
                0 <= k < i ==> !contains_seq(
                    name@,
                    #[trigger] views(tables.secondary_keywords@)[k],
                ),
        decreases tables.secondary_keywords.len() - i,
    {
        let keyword = chars_of(tables.secondary_keywords[i].as_str());
        if contains_chars(name.as_slice(), keyword.as_slice()) {
            assert(views(tables.secondary_keywords@)[i as int] == keyword@);
            return true;
        }
        i += 1;
    }
    false
}

/// Determines whether two Unicode blocks seen next to each other are a
/// suspicious succession.
pub fn is_suspiciously_successive_range(
    range_a: Option<&str>,
    range_b: Option<&str>,
    tables: &Tables,
) -> (r: bool)
    ensures
        r == suspicious_succession(
            match range_a {
                Some(a) => Some(a@),
                None => None,
            },
            match range_b {
                Some(b) => Some(b@),
                None => None,
            },
            views(tables.secondary_keywords@),
        ),
{
    let (range_a, range_b) = match (range_a, range_b) {
        (Some(a), Some(b)) => (a, b),
        _ => { return true; },
    };
    let latin_a = str_contains(range_a, "Latin");
    let latin_b = str_contains(range_b, "Latin");
    if str_eq(range_a, range_b) || (latin_a && latin_b) || str_contains(range_a, "Emoticons")
        || str_contains(range_b, "Emoticons") {
        return false;
    }
    // Latin letters may carry a combining mark, as in Vietnamese.
    if (latin_a && str_contains(range_b, "Combining")) || (latin_b && str_contains(
        range_a,
        "Combining",
    )) {
        return false;
    }
    if have_primary_word_in_common(range_a, range_b, tables) {
        return false;
    }
    let jp_a = str_eq(range_a, "Hiragana") || str_eq(range_a, "Katakana");
    let jp_b = str_eq(range_b, "Hiragana") || str_eq(range_b, "Katakana");
    let cjk_a = str_contains(range_a, "CJK");
    let cjk_b = str_contains(range_b, "CJK");
    if jp_a && jp_b {
        return false;
    }
    if (jp_a && !jp_b && cjk_b) || (jp_b && !jp_a && cjk_a) {
        return false;
    }
    if str_contains(range_a, "Hangul") || str_contains(range_b, "Hangul") {
        if cjk_a || cjk_b {
            return false;
        }
        if str_eq(range_a, "Basic Latin") || str_eq(range_b, "Basic Latin") {
            return false;
        }
    }
    // Chinese has blocks of its own for punctuation and forms.
    let marks_a = str_contains(range_a, "Punctuation") || str_contains(range_a, "Forms");
    let marks_b = str_contains(range_b, "Punctuation") || str_contains(range_b, "Forms");
    if (cjk_a && marks_b) || (cjk_b && marks_a) {
        return false;
    }
    true
}

/// The names of the blocks of the first `n` characters of a text.
pub open spec fn ranges_seen(text: Seq<char>, ranges: Seq<UnicodeRange>, n: int) -> Set<Seq<char>> {
    Set::new(
        |name: Seq<char>|
            exists|k: int| 0 <= k < n && k < text.len() && unicode_range_spec(#[trigger] text[k], ranges) == Some(name),
    )
}

/// Lists the Unicode blocks that a text draws from, each once, in the order in
/// which the text first enters them.
pub fn range_scan(decoded_sequence: &str, tables: &Tables) -> (result: Vec<String>)
    ensures
        views(result@).no_duplicates(),
        views(result@).to_set() == ranges_seen(
            decoded_sequence@,
            tables.ranges@,
            decoded_sequence@.len() as int,
        ),
{
    let text = chars_of(decoded_sequence);
    let mut result: Vec<String> = Vec::new();
    let mut i: usize = 0;
    assert(views(result@).to_set() =~= ranges_seen(text@, tables.ranges@, 0));
    while i < text.len()
        invariant
            i <= text.len(),
            text@ == decoded_sequence@,
            views(result@).no_duplicates(),
            views(result@).to_set() == ranges_seen(text@, tables.ranges@, i as int),
        decreases text.len() - i,
    {
        let ch = text[i];
        let ghost before = views(result@);
        let ghost seen = ranges_seen(text@, tables.ranges@, i as int);
        match unicode_range(&ch, tables) {
            Some(r) => {
                if !list_contains(result.as_slice(), r) {
                    result.push(r.to_owned());
                    assert(views(result@) =~= before.push(r@));
                    assert(views(result@).to_set() =~= before.to_set().insert(r@)) by {
                        assert forall|x: Seq<char>| views(result@).to_set().contains(x) implies before.to_set().insert(r@).contains(x) by {
                            let k = choose|k: int| 0 <= k < views(result@).len() && views(result@)[k] == x;
                            if k < before.len() {
                                assert(before[k] == x);
                            }
                        }
                        assert forall|x: Seq<char>| before.to_set().insert(r@).contains(x) implies views(result@).to_set().contains(x) by {
                            if x == r@ {
                                assert(views(result@)[before.len() as int] == x);
                            } else {
                                let k = choose|k: int| 0 <= k < before.len() && before[k] == x;
                                assert(views(result@)[k] == x);
                            }
                        }
                    }
                }
                assert(ranges_seen(text@, tables.ranges@, i + 1) =~= seen.insert(r@));
            },
            None => {
                assert(ranges_seen(text@, tables.ranges@, i + 1) =~= seen);
            },
        }
        i += 1;
    }
    result
}

} // verus!
