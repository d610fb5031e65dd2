//! The queries on encodings that detection is built from: their names, their
//! signatures, their similarity, and the decoding and encoding of a payload.

use crate::assets::{EncodingMark, LanguageEntry, SimilarEncodings, Tables};
use crate::codec::{
    DecoderTrap,
    EncoderTrap,
    codec_decode,
    codec_encode,
    codec_name,
    codec_name_of,
    codec_whatwg_name,
    decoding,
    encoding_of,
    whatwg_name_of,
};
use crate::ratio::{ratio_of, ratio_spec};
use crate::text::{
    chars_of,
    contains_seq,
    equals_any,
    list_contains,
    str_contains,
    str_eq,
    str_views,
    views,
};
use vstd::string::StringExecFns;
use vstd::prelude::*;

verus! {

/// Whether the signature of an encoding should be cut off before decoding.
/// It always is.
pub fn should_strip_sig_or_bom(_iana_encoding: &str) -> (r: bool)
    ensures
        r,
{
    true
}

/// The names of the encodings in which a character may take several bytes.
pub open spec fn multi_byte_names() -> Seq<Seq<char>> {
    seq![
        "utf-8"@,
        "utf-16le"@,
        "utf-16be"@,
        "euc-jp"@,
        "euc-kr"@,
        "iso-2022-jp"@,
        "gbk"@,
        "gb18030"@,
        "hz"@,
        "big5"@,
        "shift_jis"@,
    ]
}

/// Tells by its IANA name whether an encoding is a multi-byte one.
pub fn is_multi_byte_encoding(name: &str) -> (r: bool)
    ensures
        r == multi_byte_names().contains(name@),
{
    let names: Vec<&str> = vec![
        "utf-8",
        "utf-16le",
        "utf-16be",
        "euc-jp",
        "euc-kr",
        "iso-2022-jp",
        "gbk",
        "gb18030",
        "hz",
        "big5",
        "shift_jis",
    ];
    proof {
        assert(str_views(names@) =~= multi_byte_names());
    }
    let name = chars_of(name);
    equals_any(name.as_slice(), names.as_slice())
}

/// `signature` stands at the start of `bytes`.
pub open spec fn is_prefix(signature: Seq<u8>, bytes: Seq<u8>) -> bool {
    signature.len() <= bytes.len() && bytes.subrange(0, signature.len() as int) == signature
}

/// The index of the first mark at or after `from` whose signature starts
/// `bytes`.
pub open spec fn mark_index_from(marks: Seq<EncodingMark>, bytes: Seq<u8>, from: int) -> Option<int>
    decreases marks.len() - from,
{
    if from < 0 || from >= marks.len() {
        None
    } else if is_prefix(marks[from].signature@, bytes) {
        Some(from)
    } else {
        mark_index_from(marks, bytes, from + 1)
    }
}

/// Whether `bytes` begin with `signature`.
pub fn starts_with_bytes(bytes: &[u8], signature: &[u8]) -> (r: bool)
    ensures
        r == is_prefix(signature@, bytes@),
{
    if signature.len() > bytes.len() {
        return false;
    }
    let mut i: usize = 0;
    while i < signature.len()
        invariant
            i <= signature.len() <= bytes.len(),
            forall|k: int| 0 <= k < i ==> bytes@[k] == signature@[k],
        decreases signature.len() - i,
    {
        if bytes[i] != signature[i] {
            assert(bytes@.subrange(0, signature.len() as int)[i as int] == bytes@[i as int]);
            return false;
        }
        i += 1;
    }
    assert(bytes@.subrange(0, signature.len() as int) =~= signature@);
    true
}

/// Looks for a signature or byte-order mark at the start of a payload: the
/// encoding and the signature of the first mark of the table that matches.
pub fn identify_sig_or_bom<'a>(sequence: &[u8], tables: &'a Tables) -> (r: (
    Option<String>,
    Option<&'a [u8]>,
))
    ensures
        match mark_index_from(tables.marks@, sequence@, 0) {
            Some(i) => {
                &&& r.0 is Some
                &&& r.1 is Some
                &&& r.0->0@ == tables.marks@[i].encoding@
                &&& r.1->0@ == tables.marks@[i].signature@
                &&& is_prefix(r.1->0@, sequence@)
            },
            None => r.0 is None && r.1 is None,
        },
{
    let mut i: usize = 0;
    while i < tables.marks.len()
        invariant
            i <= tables.marks.len(),
            mark_index_from(tables.marks@, sequence@, 0) == mark_index_from(
                tables.marks@,
                sequence@,
                i as int,
            ),
        decreases tables.marks.len() - i,
    {
        let mark = &tables.marks[i];
        if starts_with_bytes(sequence, mark.signature.as_slice()) {
            return (Some(mark.encoding.clone()), Some(mark.signature.as_slice()));
        }
        i += 1;
    }
    (None, None)
}

/// The canonical name of an encoding: the name itself where the table of
/// supported encodings lists it, else the name of the codec that the label
/// selects, its WHATWG name before its own.
pub open spec fn iana_name_spec(name: Seq<char>, supported: Seq<Seq<char>>) -> Option<Seq<char>> {
    canonical_name_spec(name, supported.contains(name), whatwg_name_of(name), codec_name_of(name))
}

/// The canonical name of an encoding, given whether the table lists the name
/// and what the codec of the label is called: the name itself where it is
/// listed, else the WHATWG name of the codec, else the codec's own name.
pub open spec fn canonical_name_spec(
    name: Seq<char>,
    listed: bool,
    whatwg: Option<Option<Seq<char>>>,
    own: Option<Seq<char>>,
) -> Option<Seq<char>> {
    if listed {
        Some(name)
    } else {
        match whatwg {
            None => None,
            Some(Some(canonical)) => Some(canonical),
            Some(None) => own,
        }
    }
}

/// Picks the canonical name of an encoding from what is known of its label.
pub fn canonical_name(
    cp_name: &str,
    listed: bool,
    whatwg: Option<Option<String>>,
    own: Option<String>,
) -> (r: Option<String>)
    ensures
        match canonical_name_spec(
            cp_name@,
            listed,
            match whatwg {
                None => None,
                Some(None) => Some(None),
                Some(Some(name)) => Some(Some(name@)),
            },
            match own {
                None => None,
                Some(name) => Some(name@),
            },
        ) {
            Some(name) => r matches Some(found) && found@ == name,
            None => r is None,
        },
{
    if listed {
        return Some(cp_name.to_owned());
    }
    match whatwg {
        None => None,
        Some(Some(name)) => Some(name),
        Some(None) => own,
    }
}

/// Finds the standard name of an encoding from one of its labels.
pub fn iana_name(cp_name: &str, tables: &Tables) -> (r: Option<String>)
    ensures
        r is Some == iana_name_spec(cp_name@, views(tables.iana_supported@)) is Some,
        r matches Some(name) ==> iana_name_spec(cp_name@, views(tables.iana_supported@)) == Some(
            name@,
        ),
{
    let listed = list_contains(tables.iana_supported.as_slice(), cp_name);
    canonical_name(cp_name, listed, codec_whatwg_name(cp_name), codec_name(cp_name))
}

/// The table lists `b` among the encodings that are similar to `a`.
pub open spec fn is_cp_similar_spec(a: Seq<char>, b: Seq<char>, similar: Seq<SimilarEncodings>) -> bool {
    exists|i: int|
        0 <= i < similar.len() && (#[trigger] similar[i]).encoding@ == a && views(
            similar[i].similar@,
        ).contains(b)
}

/// Whether two encodings are too similar to be told apart.
pub fn is_cp_similar(iana_name_a: &str, iana_name_b: &str, tables: &Tables) -> (r: bool)
    ensures
        r == is_cp_similar_spec(iana_name_a@, iana_name_b@, tables.similar@),
{
    let mut i: usize = 0;
    while i < tables.similar.len()
        invariant
            i <= tables.similar.len(),
            forall|k: int|
                0 <= k < i ==> !((#[trigger] tables.similar@[k]).encoding@ == iana_name_a@ && views(
                    tables.similar@[k].similar@,
                ).contains(iana_name_b@)),
        decreases tables.similar.len() - i,
    {
        let entry = &tables.similar[i];
        if str_eq(entry.encoding.as_str(), iana_name_a) && list_contains(
            entry.similar.as_slice(),
            iana_name_b,
        ) {
            return true;
        }
        i += 1;
    }
    false
}

/// How many of the bytes from 1 to `upto - 1` both codecs decode to the same
/// text.
pub open spec fn matching_bytes(a: Seq<char>, b: Seq<char>, upto: int) -> int
    decreases upto,
{
    if upto <= 1 {
        0
    } else {
        matching_bytes(a, b, upto - 1) + if same_decoding(a, b, (upto - 1) as u8) {
            1int
        } else {
            0int
        }
    }
}

/// Both codecs decode the byte, and to the same text.
pub open spec fn same_decoding(a: Seq<char>, b: Seq<char>, byte: u8) -> bool {
    same_outcome(
        decoding(a, seq![byte], DecoderTrap::Ignore),
        decoding(b, seq![byte], DecoderTrap::Ignore),
    )
}

/// Both decodings succeeded, and with the same text.
pub open spec fn same_outcome(
    a: Option<Result<Seq<char>, Seq<char>>>,
    b: Option<Result<Seq<char>, Seq<char>>>,
) -> bool {
    match (a, b) {
        (Some(Ok(x)), Some(Ok(y))) => x == y,
        _ => false,
    }
}

/// The view of what a codec made of its input.
pub open spec fn outcome_view(outcome: Option<Result<String, String>>) -> Option<
    Result<Seq<char>, Seq<char>>,
> {
    match outcome {
        Some(Ok(text)) => Some(Ok(text@)),
        Some(Err(cause)) => Some(Err(cause@)),
        None => None,
    }
}

/// Whether two decodings both succeeded, and with the same text.
pub fn same_text(a: &Option<Result<String, String>>, b: &Option<Result<String, String>>) -> (r:
    bool)
    ensures
        r == same_outcome(outcome_view(*a), outcome_view(*b)),
{
    match (a, b) {
        (Some(Ok(text_a)), Some(Ok(text_b))) => str_eq(text_a.as_str(), text_b.as_str()),
        _ => false,
    }
}

/// The share of the bytes from 1 to 254 that two single-byte encodings decode
/// alike; 0 where one of them is a multi-byte encoding.
pub open spec fn cp_similarity_spec(a: Seq<char>, b: Seq<char>) -> int {
    if multi_byte_names().contains(a) || multi_byte_names().contains(b) {
        0
    } else {
        ratio_spec(matching_bytes(a, b, 255), 254)
    }
}

/// Measures how similar two single-byte encodings are.
pub fn cp_similarity(iana_name_a: &str, iana_name_b: &str) -> (r: u32)
    ensures
        r == cp_similarity_spec(iana_name_a@, iana_name_b@),
{
    if is_multi_byte_encoding(iana_name_a) || is_multi_byte_encoding(iana_name_b) {
        return 0;
    }
    let mut character_match_count: usize = 0;
    let mut i: u8 = 1;
    while i < 255
        invariant
            1 <= i <= 255,
            character_match_count == matching_bytes(iana_name_a@, iana_name_b@, i as int),
            character_match_count < i,
        decreases 255 - i,
    {
        let input: Vec<u8> = vec![i];
        assert(input@ =~= seq![i]);
        let res_a = codec_decode(iana_name_a, input.as_slice(), DecoderTrap::Ignore);
        let res_b = codec_decode(iana_name_b, input.as_slice(), DecoderTrap::Ignore);
        if same_text(&res_a, &res_b) {
            character_match_count += 1;
        }
        i += 1;
    }
    ratio_of(character_match_count, 254)
}

/// The entry of the first language at or after `from` that bears the name.
pub open spec fn language_index_from(languages: Seq<LanguageEntry>, name: Seq<char>, from: int) -> Option<
    int,
>
    decreases languages.len() - from,
{
    if from < 0 || from >= languages.len() {
        None
    } else if languages[from].language@ == name {
        Some(from)
    } else {
        language_index_from(languages, name, from + 1)
    }
}

/// Gets the data of a language: its letters, whether it has accents, and
/// whether it is written in Latin letters alone.
pub fn get_language_data(language: &str, tables: &Tables) -> (r: Result<
    (String, bool, bool),
    String,
>)
    ensures
        match language_index_from(tables.languages@, language@, 0) {
            Some(i) => r matches Ok((letters, accents, latin)) && letters@
                == tables.languages@[i].alphabet@ && accents == tables.languages@[i].has_accents
                && latin == tables.languages@[i].pure_latin,
            None => r matches Err(e) && e@ == "Language wasn't found"@,
        },
{
    let mut i: usize = 0;
    while i < tables.languages.len()
        invariant
            i <= tables.languages.len(),
            language_index_from(tables.languages@, language@, 0) == language_index_from(
                tables.languages@,
                language@,
                i as int,
            ),
        decreases tables.languages.len() - i,
    {
        let entry = &tables.languages[i];
        if str_eq(entry.language.as_str(), language) {
            return Ok((entry.alphabet.clone(), entry.has_accents, entry.pure_latin));
        }
        i += 1;
    }
    Err(String::from_str("Language wasn't found"))
}

/// Joins two runs of bytes.
pub fn concatenate_slices(slice1: &[u8], slice2: &[u8]) -> (result: Vec<u8>)
    ensures
        result@ == slice1@ + slice2@,
{
    let mut result: Vec<u8> = Vec::new();
    result.extend_from_slice(slice1);
    result.extend_from_slice(slice2);
    result
}

/// The part of a slice from `from` up to `to`.
pub fn slice_subrange<T>(s: &[T], from: usize, to: usize) -> (r: &[T])
    requires
        from <= to <= s.len(),
    ensures
        r@ == s@.subrange(from as int, to as int),
{
    vstd::slice::slice_subrange(s, from, to)
}


/// The sink that decoding writes its text to. With `only_test` set it keeps
/// nothing: the decoding is then only a test of the bytes.
pub struct DecodeTestResult {
    pub only_test: bool,
    pub data: String,
}

impl DecodeTestResult {
    /// An empty sink.
    pub fn new(only_test: bool) -> (r: Self)
        ensures
            r.only_test == only_test,
            r.data@ == Seq::<char>::empty(),
    {
        DecodeTestResult { only_test, data: String::new() }
    }

    /// Takes one character, unless the sink only tests.
    pub fn write_char(&mut self, c: char)
        ensures
            final(self).only_test == old(self).only_test,
            final(self).data@ == if old(self).only_test {
                old(self).data@
            } else {
                old(self).data@.push(c)
            },
    {
        if self.only_test {
            return ;
        }
        self.data.push(c);
    }

    /// Takes a run of characters, unless the sink only tests.
    pub fn write_str(&mut self, s: &str)
        ensures
            final(self).only_test == old(self).only_test,
            final(self).data@ == if old(self).only_test {
                old(self).data@
            } else {
                old(self).data@ + s@
            },
    {
        if self.only_test {
            return ;
        }
        self.data.append(s);
    }

    /// The text taken so far.
    pub fn get_buffer(&self) -> (r: &str)
        ensures
            r@ == self.data@,
    {
        self.data.as_str()
    }
}

/// The error for a label that selects no codec.
pub open spec fn not_found_message(label: Seq<char>) -> Seq<char> {
    "Encoding '"@ + label + "' not found"@
}

/// The window that is tried after a cause: after an invalid sequence the
/// window loses its first byte, after an incomplete one its last. There is
/// none where the cause is neither of the two, where the window would be
/// empty, or where more than three bytes would be gone from one side of a
/// chunk of `len` bytes.
pub open spec fn next_window_spec(cause: Seq<char>, begin: int, end: int, len: int) -> Option<
    (int, int),
> {
    let invalid = contains_seq(cause, "invalid sequence"@);
    let incomplete = !invalid && contains_seq(cause, "incomplete sequence"@);
    let b = if invalid {
        begin + 1
    } else {
        begin
    };
    let e = if incomplete {
        end - 1
    } else {
        end
    };
    if (!invalid && !incomplete) || e - b < 1 || b > 3 || len - e > 3 {
        None
    } else {
        Some((b, e))
    }
}

/// Strict decoding of the window from `begin` to `end` of a chunk that may
/// have been cut inside a character. Where the window does not decode, the
/// next window is tried; where there is none, the last cause stands.
pub open spec fn repaired_decoding(label: Seq<char>, input: Seq<u8>, begin: int, end: int) -> Result<
    Seq<char>,
    Seq<char>,
>
    decreases end - begin,
{
    match decoding(label, input.subrange(begin, end), DecoderTrap::Strict) {
        None => Err(not_found_message(label)),
        Some(Ok(text)) => Ok(text),
        Some(Err(cause)) => {
            let next = next_window_spec(cause, begin, end, input.len() as int);
            let b = match next {
                Some(window) => window.0,
                None => begin,
            };
            let e = match next {
                Some(window) => window.1,
                None => end,
            };
            if next is Some && 0 <= e - b < end - begin {
                repaired_decoding(label, input, b, e)
            } else {
                Err(cause)
            }
        },
    }
}

/// Picks the window that is tried after a cause, if one is.
pub fn next_window(cause: &str, begin: usize, end: usize, len: usize) -> (r: Option<(usize, usize)>)
    requires
        begin <= end <= len,
    ensures
        match next_window_spec(cause@, begin as int, end as int, len as int) {
            Some((b, e)) => r == Some((b as usize, e as usize)) && begin <= b <= e <= end && e - b
                < end - begin,
            None => r is None,
        },
{
    let invalid = str_contains(cause, "invalid sequence");
    let incomplete = !invalid && str_contains(cause, "incomplete sequence");
    if (!invalid && !incomplete) || end - begin < 2 {
        return None;
    }
    let b = if invalid {
        begin + 1
    } else {
        begin
    };
    let e = if incomplete {
        end - 1
    } else {
        end
    };
    if b > 3 || len - e > 3 {
        return None;
    }
    Some((b, e))
}

/// What decoding yields before the sink is taken into account.
pub open spec fn decode_outcome(
    input: Seq<u8>,
    label: Seq<char>,
    trap: DecoderTrap,
    is_chunk: bool,
) -> Result<Seq<char>, Seq<char>> {
    if trap == DecoderTrap::Strict && is_chunk && multi_byte_names().contains(label) {
        repaired_decoding(label, input, 0, input.len() as int)
    } else {
        match decoding(label, input, trap) {
            None => Err(not_found_message(label)),
            Some(outcome) => outcome,
        }
    }
}

/// The text of a payload in an encoding, or the reason why there is none.
pub open spec fn decode_spec(
    input: Seq<u8>,
    label: Seq<char>,
    trap: DecoderTrap,
    only_test: bool,
    is_chunk: bool,
) -> Result<Seq<char>, Seq<char>> {
    match decode_outcome(input, label, trap, is_chunk) {
        Ok(text) => Ok(
            if only_test {
                Seq::<char>::empty()
            } else {
                text
            },
        ),
        Err(cause) => Err(cause),
    }
}

/// The message for a label that selects no codec.
fn not_found(label: &str) -> (r: String)
    ensures
        r@ == not_found_message(label@),
{
    String::from_str("Encoding '").concat(label).concat("' not found")
}

/// Decodes bytes to text with the named encoding. With `is_chunk` set, and
/// for a multi-byte encoding decoded strictly, it repairs a chunk that was cut
/// inside a character by dropping up to three bytes from either end.
pub fn decode(
    input: &[u8],
    from_encoding: &str,
    how_process_errors: DecoderTrap,
    only_test: bool,
    is_chunk: bool,
) -> (r: Result<String, String>)
    ensures
        match decode_spec(input@, from_encoding@, how_process_errors, only_test, is_chunk) {
            Ok(text) => r matches Ok(s) && s@ == text,
            Err(cause) => r matches Err(e) && e@ == cause,
        },
{
    let mut buf = DecodeTestResult::new(only_test);
    let chunk_len = input.len();
    let mut begin_offset: usize = 0;
    let mut end_offset: usize = chunk_len;
    let strict = match how_process_errors {
        DecoderTrap::Strict => true,
        _ => false,
    };
    let repair = strict && is_chunk && is_multi_byte_encoding(from_encoding);
    assert(input@.subrange(0, chunk_len as int) =~= input@);
    loop
        invariant
            chunk_len == input.len(),
            begin_offset <= end_offset <= chunk_len,
            buf.only_test == only_test,
            buf.data@ == Seq::<char>::empty(),
            strict == (how_process_errors == DecoderTrap::Strict),
            repair == (strict && is_chunk && multi_byte_names().contains(from_encoding@)),
            !repair ==> begin_offset == 0 && end_offset == chunk_len,
            input@.subrange(0, chunk_len as int) == input@,
            repair ==> decode_outcome(input@, from_encoding@, how_process_errors, is_chunk)
                == repaired_decoding(
                from_encoding@,
                input@,
                begin_offset as int,
                end_offset as int,
            ),
        decreases end_offset - begin_offset,
    {
        let window = slice_subrange(input, begin_offset, end_offset);
        let cause = match codec_decode(from_encoding, window, how_process_errors) {
            None => { return Err(not_found(from_encoding)); },
            Some(Ok(text)) => {
                buf.write_str(text.as_str());
                return Ok(buf.get_buffer().to_owned());
            },
            Some(Err(cause)) => cause,
        };
        if !repair {
            return Err(cause);
        }
        match next_window(cause.as_str(), begin_offset, end_offset, chunk_len) {
            Some((begin, end)) => {
                begin_offset = begin;
                end_offset = end;
            },
            None => {
                return Err(cause);
            },
        }
    }
}

/// The bytes of a text in an encoding, or the reason why there are none.
pub open spec fn encode_spec(input: Seq<char>, label: Seq<char>, trap: EncoderTrap) -> Result<
    Seq<u8>,
    Seq<char>,
> {
    match encoding_of(label, input, trap) {
        None => Err(not_found_message(label)),
        Some(outcome) => outcome,
    }
}

/// Encodes text to bytes with the named encoding.
pub fn encode(input: &str, to_encoding: &str, how_process_errors: EncoderTrap) -> (r: Result<
    Vec<u8>,
    String,
>)
    ensures
        match encode_spec(input@, to_encoding@, how_process_errors) {
            Ok(bytes) => r matches Ok(v) && v@ == bytes,
            Err(cause) => r matches Err(e) && e@ == cause,
        },
{
    match codec_encode(to_encoding, input, how_process_errors) {
        None => Err(not_found(to_encoding)),
        Some(Ok(bytes)) => Ok(bytes),
        Some(Err(cause)) => Err(cause),
    }
}

} // verus!
