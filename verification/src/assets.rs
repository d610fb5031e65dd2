//! The read-only tables that detection consults.
//!
//! The library holds no table of its own: the caller hands them in, and every
//! contract is stated over whatever the tables hold.

use vstd::prelude::*;

verus! {

/// A named block of code points, both ends included.
pub struct UnicodeRange {
    pub name: String,
    pub first: u32,
    pub last: u32,
}

impl UnicodeRange {
    /// The block holds the code point.
    pub open spec fn holds(&self, code: u32) -> bool {
        self.first <= code <= self.last
    }
}

/// The byte signature that announces an encoding at the start of a payload.
pub struct EncodingMark {
    pub encoding: String,
    pub signature: Vec<u8>,
}

/// The encodings that share too much code space with `encoding` to be told
/// apart from it.
pub struct SimilarEncodings {
    pub encoding: String,
    pub similar: Vec<String>,
}

/// A language with the letters that it uses, the most frequent first.
pub struct LanguageEntry {
    pub language: String,
    pub alphabet: String,
    pub has_accents: bool,
    pub pure_latin: bool,
}

/// The languages that are commonly written in an encoding.
pub struct EncodingLanguages {
    pub encoding: String,
    pub languages: Vec<String>,
}

/// All tables together.
pub struct Tables {
    /// The canonical names of the encodings to probe, in probing order.
    pub iana_supported: Vec<String>,
    /// Which encodings are too similar to be told apart.
    pub similar: Vec<SimilarEncodings>,
    /// The signatures, in the order in which they are tried.
    pub marks: Vec<EncodingMark>,
    /// The Unicode blocks, in the order in which they are searched.
    pub ranges: Vec<UnicodeRange>,
    /// The words of a block's name that mark a secondary block.
    pub secondary_keywords: Vec<String>,
    /// The languages, in their natural order.
    pub languages: Vec<LanguageEntry>,
    /// The language hints of the single-byte encodings.
    pub encoding_languages: Vec<EncodingLanguages>,
    /// The language hints of the multi-byte encodings.
    pub mb_encoding_languages: Vec<EncodingLanguages>,
}

/// Payloads below this length make for a weak verdict.
pub const TOO_SMALL_SEQUENCE: usize = 32;

/// Payloads above this length are decoded lazily, chunk by chunk.
pub const TOO_BIG_SEQUENCE: usize = 1_048_576;

/// The part of a large payload that the first strict decoding covers.
pub const MAX_PROCESSED_BYTES: usize = 2_097_152;

/// How much of a payload is searched for a declared encoding.
pub const ENCODING_MARK_SEARCH_ZONE: usize = 4096;

} // verus!
