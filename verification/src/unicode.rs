//! Character properties taken from the Unicode tables of `unic` and of the
//! standard library.
//!
//! Each property is a fixed function of the code point. The library reasons
//! about them by name and never looks inside the tables.

use unic::char::property::EnumeratedCharProperty;
use unic::ucd::normal::decompose_canonical;
use unic::ucd::{GeneralCategory, Name};
use vstd::prelude::*;

verus! {

/// The Unicode name of a character, where it has one.
pub uninterp spec fn name_of(c: char) -> Option<Seq<char>>;

/// The abbreviated general category of a character, such as `Lu` or `Po`.
pub uninterp spec fn category_of(c: char) -> Seq<char>;

/// The full canonical decomposition of a character.
pub uninterp spec fn decomposition_of(c: char) -> Seq<char>;

/// Whether a character has the property White_Space.
pub uninterp spec fn whitespace(c: char) -> bool;

/// Whether a character has the property Alphabetic.
pub uninterp spec fn alphabetic(c: char) -> bool;

/// Whether a character has the property Lowercase.
pub uninterp spec fn lowercase(c: char) -> bool;

/// Whether a character has the property Uppercase.
pub uninterp spec fn uppercase(c: char) -> bool;

/// The lowercase mapping of a character, which may be several characters.
pub uninterp spec fn lowercased(c: char) -> Seq<char>;

/// `char::is_whitespace` answers by the property White_Space.
pub assume_specification[ char::is_whitespace ](c: char) -> (r: bool)
    ensures
        r == whitespace(c),
;

/// `char::is_alphabetic` answers by the property Alphabetic.
pub assume_specification[ char::is_alphabetic ](c: char) -> (r: bool)
    ensures
        r == alphabetic(c),
;

/// `char::is_lowercase` answers by the property Lowercase.
pub assume_specification[ char::is_lowercase ](c: char) -> (r: bool)
    ensures
        r == lowercase(c),
;

/// `char::is_uppercase` answers by the property Uppercase.
pub assume_specification[ char::is_uppercase ](c: char) -> (r: bool)
    ensures
        r == uppercase(c),
;

/// `char::to_lowercase`, collected: the characters of the lowercase mapping.
#[verifier::external_body]
pub(crate) fn to_lowercase(c: char) -> (r: Vec<char>)
    ensures
        r@ == lowercased(c),
{
    c.to_lowercase().collect()
}

/// `unic::ucd::Name::of`, rendered with the name's `Display`: the result is
/// the character's name in the tables of `unic`, or `None` where they list none.
#[verifier::external_body]
pub(crate) fn unicode_name(c: char) -> (r: Option<String>)
    ensures
        r is Some == name_of(c) is Some,
        r matches Some(s) ==> name_of(c) == Some(s@),
{
    match Name::of(c) {
        Some(name) => Some(name.to_string()),
        None => None,
    }
}

/// `unic::ucd::GeneralCategory::of` followed by `abbr_name`: the two-letter
/// abbreviation of the character's general category.
#[verifier::external_body]
pub(crate) fn general_category(c: char) -> (r: String)
    ensures
        r@ == category_of(c),
{
    GeneralCategory::of(c).abbr_name().to_string()
}

/// Appends one character.
pub(crate) fn push_char(out: &mut Vec<char>, c: char)
    ensures
        final(out)@ == old(out)@.push(c),
{
    out.push(c);
}

/// `unic::ucd::normal::decompose_canonical`: the characters that it hands to
/// its callback, in the order in which it hands them over.
#[verifier::external_body]
pub(crate) fn canonical_decomposition(c: char) -> (r: Vec<char>)
    ensures
        r@ == decomposition_of(c),
{
    let mut out: Vec<char> = Vec::new();
    decompose_canonical(c, |d| push_char(&mut out, d));
    out
}

} // verus!
