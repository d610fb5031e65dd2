//! The calls into the `encoding` crate: finding a codec by its label, and
//! running it on bytes or text.
//!
//! A codec is a fixed function of its label and its input. The library names
//! what the codec answers and proves its own logic over those names.

use encoding::label::encoding_from_whatwg_label;
use encoding::Encoding;
use vstd::prelude::*;

verus! {

/// How a decoder goes on after bytes that it cannot decode.
#[derive(Clone, Copy, Debug, PartialEq, Eq, Structural)]
pub enum DecoderTrap {
    /// Stop with an error.
    Strict,
    /// Write U+FFFD in their place.
    Replace,
    /// Skip them.
    Ignore,
}

/// How an encoder goes on after a character that it cannot encode.
#[derive(Clone, Copy, Debug, PartialEq, Eq, Structural)]
pub enum EncoderTrap {
    /// Stop with an error.
    Strict,
    /// Write a question mark in its place.
    Replace,
    /// Skip it.
    Ignore,
    /// Write a numeric character reference in its place.
    NcrEscape,
}

/// The WHATWG name of the codec that a label selects: `None` where the label
/// selects no codec, `Some(None)` where the codec has no WHATWG name.
pub uninterp spec fn whatwg_name_of(label: Seq<char>) -> Option<Option<Seq<char>>>;

/// The codec's own name for the codec that a label selects.
pub uninterp spec fn codec_name_of(label: Seq<char>) -> Option<Seq<char>>;

/// What the codec of a label makes of bytes: `None` where the label selects
/// no codec, else the text, or the cause for which decoding stopped.
pub uninterp spec fn decoding(label: Seq<char>, input: Seq<u8>, trap: DecoderTrap) -> Option<
    Result<Seq<char>, Seq<char>>,
>;

/// What the codec of a label makes of text: `None` where the label selects no
/// codec, else the bytes, or the cause for which encoding stopped.
pub uninterp spec fn encoding_of(label: Seq<char>, input: Seq<char>, trap: EncoderTrap) -> Option<
    Result<Seq<u8>, Seq<char>>,
>;

/// `encoding::label::encoding_from_whatwg_label`, then `Encoding::whatwg_name`
/// of the codec found.
#[verifier::external_body]
pub(crate) fn codec_whatwg_name(label: &str) -> (r: Option<Option<String>>)
    ensures
        r is Some == whatwg_name_of(label@) is Some,
        r matches Some(inner) ==> (inner is Some == whatwg_name_of(label@)->0 is Some),
        r matches Some(Some(name)) ==> whatwg_name_of(label@) == Some(Some(name@)),
{
    match encoding_from_whatwg_label(label) {
        Some(codec) => match codec.whatwg_name() {
            Some(name) => Some(Some(name.to_string())),
            None => Some(None),
        },
        None => None,
    }
}

/// `encoding::label::encoding_from_whatwg_label`, then `Encoding::name` of
/// the codec found.
#[verifier::external_body]
pub(crate) fn codec_name(label: &str) -> (r: Option<String>)
    ensures
        r is Some == codec_name_of(label@) is Some,
        r matches Some(name) ==> codec_name_of(label@) == Some(name@),
{
    match encoding_from_whatwg_label(label) {
        Some(codec) => Some(codec.name().to_string()),
        None => None,
    }
}

/// `encoding::label::encoding_from_whatwg_label`, then `Encoding::decode` of
/// the codec found, with the trap of the same name.
#[verifier::external_body]
pub(crate) fn codec_decode(label: &str, input: &[u8], trap: DecoderTrap) -> (r: Option<
    Result<String, String>,
>)
    ensures
        r is Some == decoding(label@, input@, trap) is Some,
        r matches Some(Ok(text)) ==> decoding(label@, input@, trap) == Some(
            Ok::<Seq<char>, Seq<char>>(text@),
        ),
        r matches Some(Err(cause)) ==> decoding(label@, input@, trap) == Some(
            Err::<Seq<char>, Seq<char>>(cause@),
        ),
{
    let codec = encoding_from_whatwg_label(label)?;
    let trap = match trap {
        DecoderTrap::Strict => encoding::DecoderTrap::Strict,
        DecoderTrap::Replace => encoding::DecoderTrap::Replace,
        DecoderTrap::Ignore => encoding::DecoderTrap::Ignore,
    };
    match codec.decode(input, trap) {
        Ok(text) => Some(Ok(text)),
        Err(cause) => Some(Err(cause.into_owned())),
    }
}

/// `encoding::label::encoding_from_whatwg_label`, then `Encoding::encode` of
/// the codec found, with the trap of the same name. A trap that writes a
/// replacement writes ASCII, which every codec that a label selects encodes.
#[verifier::external_body]
pub(crate) fn codec_encode(label: &str, input: &str, trap: EncoderTrap) -> (r: Option<
    Result<Vec<u8>, String>,
>)
    ensures
        r is Some == encoding_of(label@, input@, trap) is Some,
        r matches Some(Ok(bytes)) ==> encoding_of(label@, input@, trap) == Some(
            Ok::<Seq<u8>, Seq<char>>(bytes@),
        ),
        r matches Some(Err(cause)) ==> encoding_of(label@, input@, trap) == Some(
            Err::<Seq<u8>, Seq<char>>(cause@),
        ),
{
    let codec = encoding_from_whatwg_label(label)?;
    let trap = match trap {
        EncoderTrap::Strict => encoding::EncoderTrap::Strict,
        EncoderTrap::Replace => encoding::EncoderTrap::Replace,
        EncoderTrap::Ignore => encoding::EncoderTrap::Ignore,
        EncoderTrap::NcrEscape => encoding::EncoderTrap::NcrEscape,
    };
    match codec.encode(input, trap) {
        Ok(bytes) => Some(Ok(bytes)),
        Err(cause) => Some(Err(cause.into_owned())),
    }
}

} // verus!
