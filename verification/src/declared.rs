//! The search for an encoding that a payload declares in its first bytes: an
//! HTML `charset=`, an XML `encoding="…"`, the `coding:` comment of a source
//! file.

use crate::assets::Tables;
use crate::text::{chars_of, string_of, views};
use crate::utils::{iana_name, iana_name_spec, slice_subrange};
use vstd::prelude::*;

verus! {

/// The ASCII characters among the first `n` bytes, in order.
pub open spec fn ascii_text(bytes: Seq<u8>, n: int) -> Seq<char>
    decreases n,
{
    if n <= 0 {
        seq![]
    } else if bytes[n - 1] < 0x80 {
        ascii_text(bytes, n - 1).push(bytes[n - 1] as char)
    } else {
        ascii_text(bytes, n - 1)
    }
}

/// An ASCII letter in lower case, any other character as it is.
pub open spec fn lower_ascii(c: char) -> char {
    if 0x41 <= c as u32 <= 0x5A {
        ((c as u32 + 32) as u8) as char
    } else {
        c
    }
}

/// `word`, which is in lower case, stands at `at` in any mix of cases.
pub open spec fn word_at(text: Seq<char>, at: int, word: Seq<char>) -> bool {
    &&& 0 <= at
    &&& at + word.len() <= text.len()
    &&& forall|k: int| at <= k < at + word.len() ==> lower_ascii(#[trigger] text[k]) == word[k - at]
}

/// The length of the keyword that stands at `at`: `encoding`, `charset` or
/// `coding`, tried in this order.
pub open spec fn keyword_at(text: Seq<char>, at: int) -> Option<int> {
    if word_at(text, at, "encoding"@) {
        Some("encoding"@.len() as int)
    } else if word_at(text, at, "charset"@) {
        Some("charset"@.len() as int)
    } else if word_at(text, at, "coding"@) {
        Some("coding"@.len() as int)
    } else {
        None
    }
}

/// A character that may stand between the keyword and the name.
pub open spec fn is_mark_separator(c: char) -> bool {
    c == ':' || c == '=' || c == ' '
}

/// A quote that may enclose the name.
pub open spec fn is_mark_quote(c: char) -> bool {
    c == '"' || c == '\''
}

/// A character of an encoding's name: a letter, a digit, `-` or `_`.
pub open spec fn is_label_char(c: char) -> bool {
    let code = c as u32;
    ||| 0x30 <= code <= 0x39
    ||| 0x41 <= code <= 0x5A
    ||| 0x61 <= code <= 0x7A
    ||| c == '-'
    ||| c == '_'
}

/// How many separators stand at `at`, counted up to `max`.
pub open spec fn separators_from(text: Seq<char>, at: int, max: int) -> int
    decreases max,
{
    if max <= 0 || at < 0 || at >= text.len() || !is_mark_separator(text[at]) {
        0
    } else {
        1 + separators_from(text, at + 1, max - 1)
    }
}

/// How many characters of a name stand at `at`.
pub open spec fn label_len_from(text: Seq<char>, at: int) -> int
    decreases text.len() - at,
{
    if at < 0 || at >= text.len() || !is_label_char(text[at]) {
        0
    } else {
        1 + label_len_from(text, at + 1)
    }
}

/// A declaration of an encoding that begins at `at`: a keyword, one to ten
/// separators, an optional quote, a name, an optional quote. The result gives
/// where the name begins, where it ends, and where the declaration ends.
pub open spec fn mark_at(text: Seq<char>, at: int) -> Option<(int, int, int)> {
    match keyword_at(text, at) {
        None => None,
        Some(k) => {
            let separators = separators_from(text, at + k, 10);
            let after = at + k + separators;
            let start = if after < text.len() && is_mark_quote(text[after]) {
                after + 1
            } else {
                after
            };
            let len = label_len_from(text, start);
            let stop = start + len;
            let end = if stop < text.len() && is_mark_quote(text[stop]) {
                stop + 1
            } else {
                stop
            };
            if separators < 1 || len < 1 {
                None
            } else {
                Some((start, stop, end))
            }
        },
    }
}

/// The first declared encoding at or after `at` whose name resolves to a
/// canonical name. A search goes on behind a declaration that does not
/// resolve.
pub open spec fn declared_from(text: Seq<char>, at: int, supported: Seq<Seq<char>>) -> Option<
    Seq<char>,
>
    decreases text.len() - at,
{
    if at < 0 || at >= text.len() {
        None
    } else {
        let found = mark_at(text, at);
        let end = match found {
            Some(m) => m.2,
            None => at,
        };
        if at < end <= text.len() {
            let m = found->0;
            match iana_name_spec(text.subrange(m.0, m.1), supported) {
                Some(name) => Some(name),
                None => declared_from(text, end, supported),
            }
        } else {
            declared_from(text, at + 1, supported)
        }
    }
}

/// The encoding that a payload declares within its first `search_zone` bytes.
pub open spec fn any_specified_encoding_spec(
    bytes: Seq<u8>,
    search_zone: int,
    supported: Seq<Seq<char>>,
) -> Option<Seq<char>> {
    let zone = if search_zone < bytes.len() {
        search_zone
    } else {
        bytes.len() as int
    };
    declared_from(ascii_text(bytes, zone), 0, supported)
}

/// A declaration ends behind the place where it begins.
pub proof fn lemma_mark_advances(text: Seq<char>, at: int)
    requires
        0 <= at,
    ensures
        mark_at(text, at) matches Some((start, stop, end)) ==> at < start < stop <= end
            <= text.len(),
{
    if let Some(k) = keyword_at(text, at) {
        lemma_separators_bounds(text, at + k, 10);
        let separators = separators_from(text, at + k, 10);
        let after = at + k + separators;
        let start = if after < text.len() && is_mark_quote(text[after]) {
            after + 1
        } else {
            after
        };
        lemma_label_len_bounds(text, start);
    }
}

/// The count of separators is within its limit and within the text.
proof fn lemma_separators_bounds(text: Seq<char>, at: int, max: int)
    requires
        0 <= at <= text.len(),
    ensures
        0 <= separators_from(text, at, max),
        separators_from(text, at, max) <= max || max < 0,
        at + separators_from(text, at, max) <= text.len(),
    decreases max,
{
    if !(max <= 0 || at < 0 || at >= text.len() || !is_mark_separator(text[at])) {
        lemma_separators_bounds(text, at + 1, max - 1);
    }
}

/// A name that was counted lies within the text.
proof fn lemma_label_len_bounds(text: Seq<char>, at: int)
    requires
        0 <= at,
    ensures
        0 <= label_len_from(text, at),
        label_len_from(text, at) > 0 ==> at + label_len_from(text, at) <= text.len(),
    decreases text.len() - at,
{
    if !(at < 0 || at >= text.len() || !is_label_char(text[at])) {
        lemma_label_len_bounds(text, at + 1);
    }
}

/// The ASCII characters of a run of bytes; the other bytes are left out.
fn ascii_chars(bytes: &[u8], zone: usize) -> (text: Vec<char>)
    requires
        zone <= bytes.len(),
    ensures
        text@ == ascii_text(bytes@, zone as int),
{
    let mut text: Vec<char> = Vec::new();
    let mut i: usize = 0;
    while i < zone
        invariant
            i <= zone <= bytes.len(),
            text@ == ascii_text(bytes@, i as int),
        decreases zone - i,
    {
        let b = bytes[i];
        if b < 0x80 {
            text.push(b as char);
        }
        i += 1;
    }
    text
}

/// An ASCII letter in lower case.
fn to_lower_ascii(c: char) -> (r: char)
    ensures
        r == lower_ascii(c),
{
    let code: u32 = c as u32;
    if 0x41 <= code && code <= 0x5A {
        ((code + 32) as u8) as char
    } else {
        c
    }
}

/// Whether the word stands at the place, in any mix of cases.
fn has_word_at(text: &[char], at: usize, word: &str) -> (r: bool)
    ensures
        r == word_at(text@, at as int, word@),
{
    let letters = chars_of(word);
    if at > text.len() || letters.len() > text.len() - at {
        return false;
    }
    let mut k: usize = 0;
    while k < letters.len()
        invariant
            k <= letters.len(),
            letters@ == word@,
            at + letters.len() <= text.len(),
            forall|j: int|
                at <= j < at + k ==> lower_ascii(#[trigger] text@[j]) == letters@[j - at],
        decreases letters.len() - k,
    {
        if to_lower_ascii(text[at + k]) != letters[k] {
            assert(lower_ascii(text@[at as int + k as int]) != letters@[k as int]);
            return false;
        }
        k += 1;
    }
    true
}

/// The length of the keyword that stands at the place.
fn keyword_len_at(text: &[char], at: usize) -> (r: Option<usize>)
    ensures
        r is Some == keyword_at(text@, at as int) is Some,
        r matches Some(k) ==> keyword_at(text@, at as int) == Some(k as int) && at + k
            <= text.len(),
{
    if has_word_at(text, at, "encoding") {
        Some("encoding".unicode_len())
    } else if has_word_at(text, at, "charset") {
        Some("charset".unicode_len())
    } else if has_word_at(text, at, "coding") {
        Some("coding".unicode_len())
    } else {
        None
    }
}

/// Counts the separators at the place, up to ten.
fn count_separators(text: &[char], at: usize) -> (n: usize)
    requires
        at <= text.len(),
    ensures
        n == separators_from(text@, at as int, 10),
        n <= 10,
        at + n <= text.len(),
{
    let mut n: usize = 0;
    while n < 10 && at + n < text.len() && (text[at + n] == ':' || text[at + n] == '=' || text[at
        + n] == ' ')
        invariant
            n <= 10,
            at + n <= text.len(),
            separators_from(text@, at as int, 10) == n + separators_from(
                text@,
                at + n,
                10 - n,
            ),
        decreases 10 - n,
    {
        n += 1;
    }
    n
}

/// Whether the character may stand in the name of an encoding.
fn is_label(c: char) -> (r: bool)
    ensures
        r == is_label_char(c),
{
    let code: u32 = c as u32;
    (0x30 <= code && code <= 0x39) || (0x41 <= code && code <= 0x5A) || (0x61 <= code && code
        <= 0x7A) || c == '-' || c == '_'
}

/// Counts the characters of a name at the place.
fn count_label(text: &[char], at: usize) -> (n: usize)
    requires
        at <= text.len(),
    ensures
        n == label_len_from(text@, at as int),
        at + n <= text.len(),
{
    let mut n: usize = 0;
    while at + n < text.len() && is_label(text[at + n])
        invariant
            at + n <= text.len(),
            label_len_from(text@, at as int) == n + label_len_from(text@, at + n),
        decreases text.len() - at - n,
    {
        n += 1;
    }
    n
}

/// Reads the declaration that begins at the place, if one does.
fn find_mark_at(text: &[char], at: usize) -> (r: Option<(usize, usize, usize)>)
    requires
        at < text.len(),
    ensures
        r is Some == mark_at(text@, at as int) is Some,
        r matches Some((start, stop, end)) ==> mark_at(text@, at as int) == Some(
            (start as int, stop as int, end as int),
        ) && at < start < stop <= end <= text.len(),
{
    proof {
        lemma_mark_advances(text@, at as int);
    }
    let k = match keyword_len_at(text, at) {
        Some(k) => k,
        None => { return None; },
    };
    let separators = count_separators(text, at + k);
    let after = at + k + separators;
    let start = if after < text.len() && (text[after] == '"' || text[after] == '\'') {
        after + 1
    } else {
        after
    };
    let len = count_label(text, start);
    let stop = start + len;
    let end = if stop < text.len() && (text[stop] == '"' || text[stop] == '\'') {
        stop + 1
    } else {
        stop
    };
    if separators < 1 || len < 1 {
        None
    } else {
        Some((start, stop, end))
    }
}

/// Extracts the encoding that a payload declares in its first `search_zone`
/// bytes, read as ASCII with the other bytes left out: an HTML `charset=`, an
/// XML `encoding="…"`, a `coding:` comment of a source file. The first
/// declaration whose name is known decides.
pub fn any_specified_encoding(sequence: &[u8], search_zone: usize, tables: &Tables) -> (r: Option<
    String,
>)
    ensures
        r is Some == any_specified_encoding_spec(
            sequence@,
            search_zone as int,
            views(tables.iana_supported@),
        ) is Some,
        r matches Some(name) ==> any_specified_encoding_spec(
            sequence@,
            search_zone as int,
            views(tables.iana_supported@),
        ) == Some(name@),
{
    let zone = if search_zone < sequence.len() {
        search_zone
    } else {
        sequence.len()
    };
    let text = ascii_chars(sequence, zone);
    let ghost supported = views(tables.iana_supported@);
    let mut at: usize = 0;
    while at < text.len()
        invariant
            at <= text.len(),
            supported == views(tables.iana_supported@),
            any_specified_encoding_spec(sequence@, search_zone as int, supported) == declared_from(
                text@,
                at as int,
                supported,
            ),
        decreases text.len() - at,
    {
        match find_mark_at(text.as_slice(), at) {
            Some((start, stop, end)) => {
                let name = string_of(slice_subrange(text.as_slice(), start, stop));
                if let Some(found) = iana_name(name.as_str(), tables) {
                    return Some(found);
                }
                at = end;
            },
            None => {
                at += 1;
            },
        }
    }
    None
}

} // verus!
