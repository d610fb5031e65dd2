//! Predicates on single characters: what kind of character it is, by its
//! category, its block and its name.

use crate::assets::{Tables, UnicodeRange};
use crate::ranges::{unicode_range, unicode_range_spec};
use crate::text::{
    any_contained,
    any_prefix,
    chars_of,
    contains_any,
    equals_any,
    starts_with_any,
    str_views,
};
use crate::unicode::{
    canonical_decomposition,
    category_of,
    decomposition_of,
    general_category,
    lowercase,
    name_of,
    unicode_name,
    uppercase,
    whitespace,
};
use vstd::prelude::*;

verus! {

/// The category is one of `exact` or begins with one of `partial`, or the
/// character's block has a name that holds one of `ranges_partial`.
pub open spec fn in_category_spec(
    c: char,
    exact: Seq<Seq<char>>,
    partial: Seq<Seq<char>>,
    ranges_partial: Seq<Seq<char>>,
    ranges: Seq<UnicodeRange>,
) -> bool {
    category_fits_spec(
        category_of(c),
        unicode_range_spec(c, ranges),
        exact,
        partial,
        ranges_partial,
    )
}

/// The category is one of `exact` or begins with one of `partial`, or the
/// name of the block holds one of `ranges_partial`.
pub open spec fn category_fits_spec(
    category: Seq<char>,
    range: Option<Seq<char>>,
    exact: Seq<Seq<char>>,
    partial: Seq<Seq<char>>,
    ranges_partial: Seq<Seq<char>>,
) -> bool {
    ||| exact.contains(category)
    ||| any_prefix(category, partial)
    ||| match range {
        Some(name) => any_contained(name, ranges_partial),
        None => false,
    }
}

/// The character's name holds one of `patterns`.
pub open spec fn in_description_spec(c: char, patterns: Seq<Seq<char>>) -> bool {
    description_fits_spec(name_of(c), patterns)
}

/// The name, where there is one, holds one of `patterns`.
pub open spec fn description_fits_spec(name: Option<Seq<char>>, patterns: Seq<Seq<char>>) -> bool {
    match name {
        Some(name) => any_contained(name, patterns),
        None => false,
    }
}

/// Punctuation: a category that begins with `P`, or a block named as
/// punctuation.
pub open spec fn is_punctuation_spec(c: char, ranges: Seq<UnicodeRange>) -> bool {
    in_category_spec(c, seq![], seq!["P"@], seq!["Punctuation"@], ranges)
}

/// A symbol: a category that begins with `N` or `S`, or a block of forms.
pub open spec fn is_symbol_spec(c: char, ranges: Seq<UnicodeRange>) -> bool {
    in_category_spec(c, seq![], seq!["N"@, "S"@], seq!["Forms"@], ranges)
}

/// An emoticon: a character of a block of emoticons.
pub open spec fn is_emoticon_spec(c: char, ranges: Seq<UnicodeRange>) -> bool {
    in_category_spec(c, seq![], seq![], seq!["Emoticons"@], ranges)
}

/// A separator: white space, one of four marks, or a category of separators.
pub open spec fn is_separator_spec(c: char, ranges: Seq<UnicodeRange>) -> bool {
    ||| whitespace(c)
    ||| c == '\u{FF5C}'
    ||| c == '+'
    ||| c == '<'
    ||| c == '>'
    ||| in_category_spec(c, seq!["Po"@, "Pd"@, "Pc"@], seq!["Z"@], seq![], ranges)
}

/// A printable ASCII character other than the space.
pub open spec fn is_ascii_graphic_spec(c: char) -> bool {
    0x21 <= c as u32 <= 0x7E
}

/// A control character that leaves no mark on the page: no white space, no
/// printable ASCII, neither U+001A nor U+FEFF.
pub open spec fn is_unprintable_spec(c: char, ranges: Seq<UnicodeRange>) -> bool {
    &&& !whitespace(c)
    &&& !is_ascii_graphic_spec(c)
    &&& c != '\u{1A}'
    &&& c != '\u{FEFF}'
    &&& in_category_spec(c, seq!["Cc"@], seq![], seq!["Control character"@], ranges)
}

/// A letter that carries one of six accents, as its name tells.
pub open spec fn is_accentuated_spec(c: char) -> bool {
    in_description_spec(
        c,
        seq![
            "WITH GRAVE"@,
            "WITH ACUTE"@,
            "WITH CEDILLA"@,
            "WITH DIAERESIS"@,
            "WITH CIRCUMFLEX"@,
            "WITH TILDE"@,
        ],
    )
}

/// A Latin character, as its name tells.
pub open spec fn is_latin_spec(c: char) -> bool {
    in_description_spec(c, seq!["LATIN"@])
}

/// A CJK character, as its name tells.
pub open spec fn is_cjk_spec(c: char) -> bool {
    in_description_spec(c, seq!["CJK"@])
}

/// A Hiragana character, as its name tells.
pub open spec fn is_hiragana_spec(c: char) -> bool {
    in_description_spec(c, seq!["HIRAGANA"@])
}

/// A Katakana character, as its name tells.
pub open spec fn is_katakana_spec(c: char) -> bool {
    in_description_spec(c, seq!["KATAKANA"@])
}

/// A Hangul character, as its name tells.
pub open spec fn is_hangul_spec(c: char) -> bool {
    in_description_spec(c, seq!["HANGUL"@])
}

/// A Thai character, as its name tells.
pub open spec fn is_thai_spec(c: char) -> bool {
    in_description_spec(c, seq!["THAI"@])
}

/// A character that is lowercase or uppercase, and not both.
pub open spec fn is_case_variable_spec(c: char) -> bool {
    lowercase(c) != uppercase(c)
}

/// One of the first 128 code points.
pub open spec fn is_ascii_spec(c: char) -> bool {
    c as u32 <= 0x7F
}

/// The first character of the canonical decomposition, or the character
/// itself where the decomposition is empty.
pub open spec fn remove_accent_spec(c: char) -> char {
    first_or_spec(decomposition_of(c), c)
}

/// The first of the characters, or `otherwise` where there is none.
pub open spec fn first_or_spec(parts: Seq<char>, otherwise: char) -> char {
    if parts.len() > 0 {
        parts[0]
    } else {
        otherwise
    }
}

/// Whether a category and a block fit: the category is one of
/// `categories_exact` or begins with one of `categories_partial`, or the name
/// of the block holds one of `ranges_partial`.
pub fn category_fits(
    category: &str,
    range: Option<&str>,
    categories_exact: &[&str],
    categories_partial: &[&str],
    ranges_partial: &[&str],
) -> (r: bool)
    ensures
        r == category_fits_spec(
            category@,
            match range {
                Some(name) => Some(name@),
                None => None,
            },
            str_views(categories_exact@),
            str_views(categories_partial@),
            str_views(ranges_partial@),
        ),
{
    let category = chars_of(category);
    if equals_any(category.as_slice(), categories_exact) || starts_with_any(
        category.as_slice(),
        categories_partial,
    ) {
        return true;
    }
    match range {
        Some(name) => {
            let name = chars_of(name);
            contains_any(name.as_slice(), ranges_partial)
        },
        None => false,
    }
}

/// Whether the character's category is one of `categories_exact` or begins
/// with one of `categories_partial`, or its block has a name that holds one of
/// `ranges_partial`.
pub fn in_category(
    character: &char,
    categories_exact: &[&str],
    categories_partial: &[&str],
    ranges_partial: &[&str],
    tables: &Tables,
) -> (r: bool)
    ensures
        r == in_category_spec(
            *character,
            str_views(categories_exact@),
            str_views(categories_partial@),
            str_views(ranges_partial@),
            tables.ranges@,
        ),
{
    let category = general_category(*character);
    let range = if ranges_partial.len() > 0 {
        unicode_range(character, tables)
    } else {
        None
    };
    category_fits(category.as_str(), range, categories_exact, categories_partial, ranges_partial)
}

/// Whether the character's Unicode name holds one of `patterns`.
pub fn in_description(character: &char, patterns: &[&str]) -> (r: bool)
    ensures
        r == in_description_spec(*character, str_views(patterns@)),
{
    let description = unicode_name(*character);
    description_fits(
        match &description {
            Some(name) => Some(name.as_str()),
            None => None,
        },
        patterns,
    )
}

/// Whether a name, where there is one, holds one of `patterns`.
pub fn description_fits(description: Option<&str>, patterns: &[&str]) -> (r: bool)
    ensures
        r == description_fits_spec(
            match description {
                Some(name) => Some(name@),
                None => None,
            },
            str_views(patterns@),
        ),
{
    match description {
        Some(name) => {
            let name = chars_of(name);
            contains_any(name.as_slice(), patterns)
        },
        None => false,
    }
}

/// Punctuation: a category that begins with `P`, or a block named as
/// punctuation.
pub fn is_punctuation(character: &char, tables: &Tables) -> (r: bool)
    ensures
        r == is_punctuation_spec(*character, tables.ranges@),
{
    let exact: Vec<&str> = Vec::new();
    let partial: Vec<&str> = vec!["P"];
    let ranges: Vec<&str> = vec!["Punctuation"];
    proof {
        assert(str_views(exact@) =~= seq![]);
        assert(str_views(partial@) =~= seq!["P"@]);
        assert(str_views(ranges@) =~= seq!["Punctuation"@]);
    }
    in_category(character, exact.as_slice(), partial.as_slice(), ranges.as_slice(), tables)
}

/// A symbol: a category that begins with `N` or `S`, or a block of forms.
pub fn is_symbol(character: &char, tables: &Tables) -> (r: bool)
    ensures
        r == is_symbol_spec(*character, tables.ranges@),
{
    let exact: Vec<&str> = Vec::new();
    let partial: Vec<&str> = vec!["N", "S"];
    let ranges: Vec<&str> = vec!["Forms"];
    proof {
        assert(str_views(exact@) =~= seq![]);
        assert(str_views(partial@) =~= seq!["N"@, "S"@]);
        assert(str_views(ranges@) =~= seq!["Forms"@]);
    }
    in_category(character, exact.as_slice(), partial.as_slice(), ranges.as_slice(), tables)
}

/// An emoticon: a character of a block of emoticons.
pub fn is_emoticon(character: &char, tables: &Tables) -> (r: bool)
    ensures
        r == is_emoticon_spec(*character, tables.ranges@),
{
    let exact: Vec<&str> = Vec::new();
    let partial: Vec<&str> = Vec::new();
    let ranges: Vec<&str> = vec!["Emoticons"];
    proof {
        assert(str_views(exact@) =~= seq![]);
        assert(str_views(partial@) =~= seq![]);
        assert(str_views(ranges@) =~= seq!["Emoticons"@]);
    }
    in_category(character, exact.as_slice(), partial.as_slice(), ranges.as_slice(), tables)
}

/// A separator: white space, one of four marks, or a category of separators.
pub fn is_separator(character: &char, tables: &Tables) -> (r: bool)
    ensures
        r == is_separator_spec(*character, tables.ranges@),
{
    let c = *character;
    if c.is_whitespace() || c == '\u{FF5C}' || c == '+' || c == '<' || c == '>' {
        return true;
    }
    let exact: Vec<&str> = vec!["Po", "Pd", "Pc"];
    let partial: Vec<&str> = vec!["Z"];
    let ranges: Vec<&str> = Vec::new();
    proof {
        assert(str_views(exact@) =~= seq!["Po"@, "Pd"@, "Pc"@]);
        assert(str_views(partial@) =~= seq!["Z"@]);
        assert(str_views(ranges@) =~= seq![]);
    }
    in_category(character, exact.as_slice(), partial.as_slice(), ranges.as_slice(), tables)
}

/// A control character that leaves no mark on the page.
pub fn is_unprintable(character: &char, tables: &Tables) -> (r: bool)
    ensures
        r == is_unprintable_spec(*character, tables.ranges@),
{
    let c = *character;
    let code: u32 = c as u32;
    if c.is_whitespace() || (0x21 <= code && code <= 0x7E) || c == '\u{1A}' || c == '\u{FEFF}' {
        return false;
    }
    let exact: Vec<&str> = vec!["Cc"];
    let partial: Vec<&str> = Vec::new();
    let ranges: Vec<&str> = vec!["Control character"];
    proof {
        assert(str_views(exact@) =~= seq!["Cc"@]);
        assert(str_views(partial@) =~= seq![]);
        assert(str_views(ranges@) =~= seq!["Control character"@]);
    }
    in_category(character, exact.as_slice(), partial.as_slice(), ranges.as_slice(), tables)
}

/// A letter that carries one of six accents.
pub fn is_accentuated(character: &char) -> (r: bool)
    ensures
        r == is_accentuated_spec(*character),
{
    let patterns: Vec<&str> = vec![
        "WITH GRAVE",
        "WITH ACUTE",
        "WITH CEDILLA",
        "WITH DIAERESIS",
        "WITH CIRCUMFLEX",
        "WITH TILDE",
    ];
    proof {
        assert(str_views(patterns@) =~= seq![
            "WITH GRAVE"@,
            "WITH ACUTE"@,
            "WITH CEDILLA"@,
            "WITH DIAERESIS"@,
            "WITH CIRCUMFLEX"@,
            "WITH TILDE"@,
        ]);
    }
    in_description(character, patterns.as_slice())
}

/// Whether the character is a Latin one.
pub fn is_latin(character: &char) -> (r: bool)
    ensures
        r == is_latin_spec(*character),
{
    let patterns: Vec<&str> = vec!["LATIN"];
    proof {
        assert(str_views(patterns@) =~= seq!["LATIN"@]);
    }
    in_description(character, patterns.as_slice())
}

/// Whether the character is a CJK one.
pub fn is_cjk(character: &char) -> (r: bool)
    ensures
        r == is_cjk_spec(*character),
{
    let patterns: Vec<&str> = vec!["CJK"];
    proof {
        assert(str_views(patterns@) =~= seq!["CJK"@]);
    }
    in_description(character, patterns.as_slice())
}

/// Whether the character is a Hiragana one.
pub fn is_hiragana(character: &char) -> (r: bool)
    ensures
        r == is_hiragana_spec(*character),
{
    let patterns: Vec<&str> = vec!["HIRAGANA"];
    proof {
        assert(str_views(patterns@) =~= seq!["HIRAGANA"@]);
    }
    in_description(character, patterns.as_slice())
}

/// Whether the character is a Katakana one.
pub fn is_katakana(character: &char) -> (r: bool)
    ensures
        r == is_katakana_spec(*character),
{
    let patterns: Vec<&str> = vec!["KATAKANA"];
    proof {
        assert(str_views(patterns@) =~= seq!["KATAKANA"@]);
    }
    in_description(character, patterns.as_slice())
}

/// Whether the character is a Hangul one.
pub fn is_hangul(character: &char) -> (r: bool)
    ensures
        r == is_hangul_spec(*character),
{
    let patterns: Vec<&str> = vec!["HANGUL"];
    proof {
        assert(str_views(patterns@) =~= seq!["HANGUL"@]);
    }
    in_description(character, patterns.as_slice())
}

/// Whether the character is a Thai one.
pub fn is_thai(character: &char) -> (r: bool)
    ensures
        r == is_thai_spec(*character),
{
    let patterns: Vec<&str> = vec!["THAI"];
    proof {
        assert(str_views(patterns@) =~= seq!["THAI"@]);
    }
    in_description(character, patterns.as_slice())
}

/// Whether the character is lowercase or uppercase, and not both.
pub fn is_case_variable(character: &char) -> (r: bool)
    ensures
        r == is_case_variable_spec(*character),
{
    let c = *character;
    c.is_lowercase() != c.is_uppercase()
}

/// Whether the character is one of the first 128 code points.
pub fn is_ascii(character: &char) -> (r: bool)
    ensures
        r == is_ascii_spec(*character),
{
    let code: u32 = *character as u32;
    code <= 0x7F
}

/// Strips the accent: the first character of the canonical decomposition.
pub fn remove_accent(ch: &char) -> (r: char)
    ensures
        r == remove_accent_spec(*ch),
{
    let parts = canonical_decomposition(*ch);
    first_or(parts.as_slice(), *ch)
}

/// The first of the characters, or `otherwise` where there is none.
pub fn first_or(parts: &[char], otherwise: char) -> (r: char)
    ensures
        r == first_or_spec(parts@, otherwise),
{
    if parts.len() > 0 {
        parts[0]
    } else {
        otherwise
    }
}

} // verus!
