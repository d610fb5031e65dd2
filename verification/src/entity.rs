//! The values that detection takes and gives: the settings, a match for one
//! encoding, and the ordered set of matches.

use crate::assets::Tables;
use crate::codec::DecoderTrap;
use crate::text::{list_contains, str_eq, views};
use crate::ranges::{range_scan, ranges_seen};
use crate::utils::{decode, decode_spec, iana_name, iana_name_spec};
use vstd::prelude::*;

verus! {

/// What the caller may set for one detection.
#[derive(Debug)]
pub struct NormalizerSettings {
    /// How many chunks of the payload are read; at least 1.
    pub steps: usize,
    /// How many bytes, or characters once decoded, a chunk holds; at least 1.
    pub chunk_size: usize,
    /// The mean mess from which an encoding is given up, in units of a ratio.
    pub threshold: u32,
    /// The coherence below which a language is not recorded, in units of a
    /// ratio.
    pub language_threshold: u32,
    /// Whether the first bytes are searched for a declared encoding.
    pub preemptive_behaviour: bool,
    /// Whether a fallback is kept for the case that no encoding fits.
    pub enable_fallback: bool,
    /// The only encodings to probe; all where the list is empty.
    pub include_encodings: Vec<String>,
    /// The encodings that are not probed.
    pub exclude_encodings: Vec<String>,
}

impl Default for NormalizerSettings {
    fn default() -> (r: Self)
        ensures
            r.steps == 5,
            r.chunk_size == 512,
            r.threshold == 20_000,
            r.language_threshold == 10_000,
            r.preemptive_behaviour,
            r.enable_fallback,
            r.include_encodings@.len() == 0,
            r.exclude_encodings@.len() == 0,
    {
        NormalizerSettings {
            steps: 5,
            chunk_size: 512,
            threshold: 20_000,
            language_threshold: 10_000,
            preemptive_behaviour: true,
            enable_fallback: true,
            include_encodings: Vec::new(),
            exclude_encodings: Vec::new(),
        }
    }
}

/// How well a text fits a language: the share of its most frequent letters
/// that are among the letters of the language.
#[derive(Debug)]
pub struct CoherenceMatch {
    pub language: String,
    pub score: u32,
}

/// The coherence of a text with several languages, the best fit first.
pub type CoherenceMatches = Vec<CoherenceMatch>;

impl View for CoherenceMatch {
    type V = (Seq<char>, int);

    open spec fn view(&self) -> (Seq<char>, int) {
        (self.language@, self.score as int)
    }
}

impl Clone for CoherenceMatch {
    fn clone(&self) -> (r: Self)
        ensures
            r@ == self@,
    {
        CoherenceMatch { language: self.language.clone(), score: self.score }
    }
}

/// The views of a list of coherence matches.
pub open spec fn coherence_views(matches: Seq<CoherenceMatch>) -> Seq<(Seq<char>, int)> {
    matches.map_values(|m: CoherenceMatch| m@)
}

/// A copy of a list of coherence matches.
pub fn clone_coherence(matches: &Vec<CoherenceMatch>) -> (r: Vec<CoherenceMatch>)
    ensures
        coherence_views(r@) == coherence_views(matches@),
{
    let mut out: Vec<CoherenceMatch> = Vec::new();
    let mut i: usize = 0;
    while i < matches.len()
        invariant
            i <= matches.len(),
            out@.len() == i,
            forall|k: int| 0 <= k < i ==> out@[k]@ == matches@[k]@,
        decreases matches.len() - i,
    {
        out.push(matches[i].clone());
        i += 1;
    }
    assert(coherence_views(out@) =~= coherence_views(matches@));
    out
}

/// A copy of a list of names.
pub fn clone_names(names: &Vec<String>) -> (r: Vec<String>)
    ensures
        views(r@) == views(names@),
{
    let mut out: Vec<String> = Vec::new();
    let mut i: usize = 0;
    while i < names.len()
        invariant
            i <= names.len(),
            out@.len() == i,
            forall|k: int| 0 <= k < i ==> out@[k]@ == names@[k]@,
        decreases names.len() - i,
    {
        out.push(names[i].clone());
        i += 1;
    }
    assert(views(out@) =~= views(names@));
    out
}

/// A copy of a run of bytes.
pub fn clone_bytes(bytes: &[u8]) -> (r: Vec<u8>)
    ensures
        r@ == bytes@,
{
    let mut out: Vec<u8> = Vec::new();
    out.extend_from_slice(bytes);
    out
}

/// How many bytes of the payload stand for it where no text was kept.
pub const FINGERPRINT_BYTES: usize = 1024;

/// Where the hash of a fingerprint starts.
pub const FINGERPRINT_BASIS: u64 = 0xcbf2_9ce4_8422_2325;

/// What the hash of a fingerprint is multiplied by at every step.
pub const FINGERPRINT_PRIME: u64 = 0x0000_0100_0000_01b3;

/// One step of the hash: the value is mixed in, and the product with the
/// prime is cut to 64 bits.
pub open spec fn mix(hash: u64, value: u64) -> u64 {
    (((hash ^ value) as int * FINGERPRINT_PRIME as int) % 0x1_0000_0000_0000_0000) as u64
}

/// The hash of the first `n` characters of a text.
pub open spec fn hash_text(text: Seq<char>, n: int) -> u64
    decreases n,
{
    if n <= 0 {
        FINGERPRINT_BASIS
    } else {
        mix(hash_text(text, n - 1), text[n - 1] as u64)
    }
}

/// The hash of the first `n` bytes of a payload.
pub open spec fn hash_bytes(bytes: Seq<u8>, n: int) -> u64
    decreases n,
{
    if n <= 0 {
        FINGERPRINT_BASIS
    } else {
        mix(hash_bytes(bytes, n - 1), bytes[n - 1] as u64)
    }
}

/// What is known of one match.
pub struct MatchView {
    pub encoding: Seq<char>,
    pub mess: int,
    pub bom: bool,
    pub coherence: Seq<(Seq<char>, int)>,
    pub payload: Option<Seq<char>>,
    pub aliases: Seq<Seq<char>>,
    pub raw: Seq<u8>,
}

impl MatchView {
    /// The fingerprint of a match: the hash of its decoded text, or of the
    /// first bytes of its payload where no text was kept.
    pub open spec fn fingerprint(self) -> u64 {
        match self.payload {
            Some(text) => hash_text(text, text.len() as int),
            None => hash_bytes(
                self.raw,
                if self.raw.len() < FINGERPRINT_BYTES {
                    self.raw.len() as int
                } else {
                    FINGERPRINT_BYTES as int
                },
            ),
        }
    }

    /// The match after another match with the same fingerprint has been
    /// merged into it: the other's encoding and aliases become aliases.
    pub open spec fn merged(self, other: MatchView) -> MatchView {
        MatchView { aliases: (self.aliases.push(other.encoding)) + other.aliases, ..self }
    }

    /// The names under which the match answers: its encoding and its aliases.
    pub open spec fn answers_to(self, name: Seq<char>) -> bool {
        self.encoding == name || self.aliases.contains(name)
    }
}

/// One candidate: an encoding in which the payload can be read, with the
/// signals that tell how well.
#[derive(Debug)]
pub struct CharsetMatch {
    pub payload: Vec<u8>,
    pub encoding: String,
    pub mean_mess_ratio: u32,
    pub has_sig_or_bom: bool,
    pub coherence_matches: CoherenceMatches,
    pub decoded_payload: Option<String>,
    pub aliases: Vec<String>,
}

impl View for CharsetMatch {
    type V = MatchView;

    open spec fn view(&self) -> MatchView {
        MatchView {
            encoding: self.encoding@,
            mess: self.mean_mess_ratio as int,
            bom: self.has_sig_or_bom,
            coherence: coherence_views(self.coherence_matches@),
            payload: match self.decoded_payload {
                Some(text) => Some(text@),
                None => None,
            },
            aliases: views(self.aliases@),
            raw: self.payload@,
        }
    }
}

/// One step of the hash.
fn mix_in(hash: u64, value: u64) -> (r: u64)
    ensures
        r == mix(hash, value),
{
    let product: u128 = ((hash ^ value) as u128) * (FINGERPRINT_PRIME as u128);
    (product % 0x1_0000_0000_0000_0000u128) as u64
}

impl Clone for CharsetMatch {
    fn clone(&self) -> (r: Self)
        ensures
            r@ == self@,
    {
        CharsetMatch {
            payload: clone_bytes(self.payload.as_slice()),
            encoding: self.encoding.clone(),
            mean_mess_ratio: self.mean_mess_ratio,
            has_sig_or_bom: self.has_sig_or_bom,
            coherence_matches: clone_coherence(&self.coherence_matches),
            decoded_payload: match &self.decoded_payload {
                Some(text) => Some(text.clone()),
                None => None,
            },
            aliases: clone_names(&self.aliases),
        }
    }
}

impl CharsetMatch {
    /// A match for `encoding`, with no aliases yet.
    pub fn new(
        payload: &[u8],
        encoding: &str,
        mean_mess_ratio: u32,
        has_sig_or_bom: bool,
        coherence_matches: &CoherenceMatches,
        decoded_payload: Option<&str>,
    ) -> (r: Self)
        ensures
            r@ == (MatchView {
                encoding: encoding@,
                mess: mean_mess_ratio as int,
                bom: has_sig_or_bom,
                coherence: coherence_views(coherence_matches@),
                payload: match decoded_payload {
                    Some(text) => Some(text@),
                    None => None,
                },
                aliases: Seq::<Seq<char>>::empty(),
                raw: payload@,
            }),
    {
        let aliases: Vec<String> = Vec::new();
        assert(views(aliases@) =~= Seq::<Seq<char>>::empty());
        CharsetMatch {
            payload: clone_bytes(payload),
            encoding: encoding.to_owned(),
            mean_mess_ratio,
            has_sig_or_bom,
            coherence_matches: clone_coherence(coherence_matches),
            decoded_payload: match decoded_payload {
                Some(text) => Some(text.to_owned()),
                None => None,
            },
            aliases,
        }
    }

    /// The fingerprint by which two matches are told to decode to the same
    /// text.
    pub fn fingerprint(&self) -> (r: u64)
        ensures
            r == self@.fingerprint(),
    {
        let mut hash: u64 = FINGERPRINT_BASIS;
        match &self.decoded_payload {
            Some(text) => {
                for c in it: text.as_str().chars()
                    invariant
                        it.seq() == text@,
                        hash == hash_text(text@, it.index() as int),
                {
                    hash = mix_in(hash, c as u64);
                }
            },
            None => {
                let n = if self.payload.len() < FINGERPRINT_BYTES {
                    self.payload.len()
                } else {
                    FINGERPRINT_BYTES
                };
                let mut i: usize = 0;
                while i < n
                    invariant
                        i <= n <= self.payload.len(),
                        hash == hash_bytes(self.payload@, i as int),
                    decreases n - i,
                {
                    hash = mix_in(hash, self.payload[i] as u64);
                    i += 1;
                }
            },
        }
        hash
    }

    /// The canonical name of the encoding.
    pub fn encoding(&self) -> (r: &str)
        ensures
            r@ == self@.encoding,
    {
        self.encoding.as_str()
    }

    /// The encodings that decode the payload to the same text.
    pub fn encoding_aliases(&self) -> (r: &Vec<String>)
        ensures
            views(r@) == self@.aliases,
    {
        &self.aliases
    }

    /// Whether the payload begins with the signature of the encoding.
    pub fn bom(&self) -> (r: bool)
        ensures
            r == self@.bom,
    {
        self.has_sig_or_bom
    }

    /// The mean mess of the chunks, in units of a ratio; the same number is
    /// the mess in thousandths of a percent.
    pub fn chaos(&self) -> (r: u32)
        ensures
            r == self@.mess,
    {
        self.mean_mess_ratio
    }

    /// The score of the most coherent language, in units of a ratio; 0 where
    /// no language was recorded.
    pub fn coherence(&self) -> (r: u32)
        ensures
            r == if self@.coherence.len() > 0 {
                self@.coherence[0].1
            } else {
                0
            },
    {
        if self.coherence_matches.len() > 0 {
            assert(coherence_views(self.coherence_matches@)[0] == self.coherence_matches@[0]@);
            self.coherence_matches[0].score
        } else {
            0
        }
    }

    /// The most coherent language, where one was recorded.
    pub fn most_probably_language(&self) -> (r: Option<&str>)
        ensures
            r is Some == (self@.coherence.len() > 0),
            r matches Some(name) ==> name@ == self@.coherence[0].0,
    {
        if self.coherence_matches.len() > 0 {
            assert(coherence_views(self.coherence_matches@)[0] == self.coherence_matches@[0]@);
            Some(self.coherence_matches[0].language.as_str())
        } else {
            None
        }
    }

    /// The languages that were recorded, the most coherent first.
    pub fn languages(&self) -> (r: Vec<String>)
        ensures
            r@.len() == self@.coherence.len(),
            forall|i: int| 0 <= i < r@.len() ==> (#[trigger] r@[i])@ == self@.coherence[i].0,
    {
        let mut out: Vec<String> = Vec::new();
        let mut i: usize = 0;
        while i < self.coherence_matches.len()
            invariant
                i <= self.coherence_matches.len(),
                out@.len() == i,
                forall|k: int|
                    0 <= k < i ==> (#[trigger] out@[k])@ == self.coherence_matches@[k].language@,
            decreases self.coherence_matches.len() - i,
        {
            out.push(self.coherence_matches[i].language.clone());
            i += 1;
        }
        assert forall|i: int| 0 <= i < out@.len() implies (#[trigger] out@[i])@
            == self@.coherence[i].0 by {
            assert(coherence_views(self.coherence_matches@)[i] == self.coherence_matches@[i]@);
        }
        out
    }

    /// The payload as it was given.
    pub fn raw(&self) -> (r: &Vec<u8>)
        ensures
            r@ == self@.raw,
    {
        &self.payload
    }

    /// The decoded text, where it was kept.
    pub fn decoded_payload(&self) -> (r: Option<&str>)
        ensures
            r is Some == self@.payload is Some,
            r matches Some(text) ==> Some(text@) == self@.payload,
    {
        match &self.decoded_payload {
            Some(text) => Some(text.as_str()),
            None => None,
        }
    }

    /// The decoded text: the one that was kept, else the payload decoded anew,
    /// strictly, with its ends repaired as those of a chunk. `None` where the
    /// payload does not decode.
    pub fn decode_payload(&self) -> (r: Option<String>)
        ensures
            match self@.payload {
                Some(text) => r matches Some(found) && found@ == text,
                None => match decode_spec(
                    self@.raw,
                    self@.encoding,
                    DecoderTrap::Strict,
                    false,
                    true,
                ) {
                    Ok(text) => r matches Some(found) && found@ == text,
                    Err(_) => r is None,
                },
            },
    {
        match &self.decoded_payload {
            Some(text) => Some(text.clone()),
            None => match decode(
                self.payload.as_slice(),
                self.encoding.as_str(),
                DecoderTrap::Strict,
                false,
                true,
            ) {
                Ok(text) => Some(text),
                Err(_) => None,
            },
        }
    }

    /// The encoding and its aliases: every encoding that suits the payload as
    /// well as this one.
    pub fn suitable_encodings(&self) -> (r: Vec<String>)
        ensures
            views(r@) == seq![self@.encoding] + self@.aliases,
    {
        let mut out: Vec<String> = Vec::new();
        out.push(self.encoding.clone());
        assert(views(out@) =~= seq![self.encoding@]);
        let mut i: usize = 0;
        while i < self.aliases.len()
            invariant
                i <= self.aliases.len(),
                views(out@) == seq![self.encoding@] + views(self.aliases@).take(i as int),
            decreases self.aliases.len() - i,
        {
            let ghost before = views(out@);
            out.push(self.aliases[i].clone());
            assert(views(out@) =~= before.push(self.aliases@[i as int]@));
            assert(views(self.aliases@).take(i + 1) =~= views(self.aliases@).take(i as int).push(
                self.aliases@[i as int]@,
            ));
            assert(views(out@) =~= seq![self.encoding@] + views(self.aliases@).take(i + 1));
            i += 1;
        }
        assert(views(self.aliases@).take(self.aliases@.len() as int) =~= views(self.aliases@));
        out
    }

    /// The Unicode blocks that the decoded text draws from, each once; none
    /// where no text was kept.
    pub fn unicode_ranges(&self, tables: &Tables) -> (r: Vec<String>)
        ensures
            views(r@).no_duplicates(),
            match self@.payload {
                Some(text) => views(r@).to_set() == ranges_seen(
                    text,
                    tables.ranges@,
                    text.len() as int,
                ),
                None => r@.len() == 0,
            },
    {
        match &self.decoded_payload {
            Some(text) => range_scan(text.as_str(), tables),
            None => {
                let none: Vec<String> = Vec::new();
                assert(views(none@) =~= Seq::<Seq<char>>::empty());
                none
            },
        }
    }

    /// Whether other encodings were merged into this match.
    pub fn has_submatch(&self) -> (r: bool)
        ensures
            r == (self@.aliases.len() > 0),
    {
        self.aliases.len() > 0
    }

    /// Takes in a match that decodes to the same text: its encoding and its
    /// aliases become aliases of this one.
    pub fn add_submatch(&mut self, other: &CharsetMatch)
        ensures
            final(self)@ == old(self)@.merged(other@),
    {
        let ghost before = views(self.aliases@);
        self.aliases.push(other.encoding.clone());
        assert(views(self.aliases@) =~= before.push(other.encoding@));
        let mut i: usize = 0;
        while i < other.aliases.len()
            invariant
                i <= other.aliases.len(),
                views(self.aliases@) == before.push(other.encoding@) + views(other.aliases@).take(
                    i as int,
                ),
                self.payload == old(self).payload,
                self.encoding == old(self).encoding,
                self.mean_mess_ratio == old(self).mean_mess_ratio,
                self.has_sig_or_bom == old(self).has_sig_or_bom,
                self.coherence_matches == old(self).coherence_matches,
                self.decoded_payload == old(self).decoded_payload,
            decreases other.aliases.len() - i,
        {
            let ghost so_far = views(self.aliases@);
            self.aliases.push(other.aliases[i].clone());
            assert(views(self.aliases@) =~= so_far.push(other.aliases@[i as int]@));
            assert(views(other.aliases@).take(i + 1) =~= views(other.aliases@).take(i as int).push(
                other.aliases@[i as int]@,
            ));
            assert(views(self.aliases@) =~= before.push(other.encoding@) + views(
                other.aliases@,
            ).take(i + 1));
            i += 1;
        }
        assert(views(other.aliases@).take(other.aliases@.len() as int) =~= views(other.aliases@));
    }
}

/// The views of a list of matches.
pub open spec fn match_views(items: Seq<CharsetMatch>) -> Seq<MatchView> {
    items.map_values(|m: CharsetMatch| m@)
}

/// The first place at or behind `from` whose match has the fingerprint.
pub open spec fn fingerprint_position(items: Seq<MatchView>, fingerprint: u64, from: int) -> Option<
    int,
>
    decreases items.len() - from,
{
    if from < 0 || from >= items.len() {
        None
    } else if items[from].fingerprint() == fingerprint {
        Some(from)
    } else {
        fingerprint_position(items, fingerprint, from + 1)
    }
}

/// The matches after one more has been appended: it is merged into the first
/// match with its fingerprint, and stands at the end where there is none.
pub open spec fn appended(items: Seq<MatchView>, item: MatchView) -> Seq<MatchView> {
    match fingerprint_position(items, item.fingerprint(), 0) {
        Some(i) => items.update(i, items[i].merged(item)),
        None => items.push(item),
    }
}

/// No two matches have the same fingerprint.
pub open spec fn distinct_fingerprints(items: Seq<MatchView>) -> bool {
    forall|i: int, j: int|
        0 <= i < j < items.len() ==> (#[trigger] items[i]).fingerprint() != (
        #[trigger] items[j]).fingerprint()
}

/// The first place at or behind `from` whose match answers to the name.
pub open spec fn encoding_position(items: Seq<MatchView>, name: Seq<char>, from: int) -> Option<int>
    decreases items.len() - from,
{
    if from < 0 || from >= items.len() {
        None
    } else if items[from].answers_to(name) {
        Some(from)
    } else {
        encoding_position(items, name, from + 1)
    }
}

/// What `fingerprint_position` finds is the first match with the fingerprint.
pub proof fn lemma_fingerprint_position(items: Seq<MatchView>, fingerprint: u64, from: int)
    requires
        0 <= from,
    ensures
        match fingerprint_position(items, fingerprint, from) {
            Some(i) => from <= i < items.len() && items[i].fingerprint() == fingerprint,
            None => forall|j: int|
                from <= j < items.len() ==> (#[trigger] items[j]).fingerprint() != fingerprint,
        },
    decreases items.len() - from,
{
    if from < items.len() && items[from].fingerprint() != fingerprint {
        lemma_fingerprint_position(items, fingerprint, from + 1);
    }
}

/// Appending keeps the fingerprints distinct.
pub proof fn lemma_appended_distinct(items: Seq<MatchView>, item: MatchView)
    requires
        distinct_fingerprints(items),
    ensures
        distinct_fingerprints(appended(items, item)),
{
    lemma_fingerprint_position(items, item.fingerprint(), 0);
    let after = appended(items, item);
    match fingerprint_position(items, item.fingerprint(), 0) {
        Some(at) => {
            assert forall|i: int, j: int| 0 <= i < j < after.len() implies (
            #[trigger] after[i]).fingerprint() != (#[trigger] after[j]).fingerprint() by {
                assert(after[i].fingerprint() == items[i].fingerprint());
                assert(after[j].fingerprint() == items[j].fingerprint());
            }
        },
        None => {
            assert forall|i: int, j: int| 0 <= i < j < after.len() implies (
            #[trigger] after[i]).fingerprint() != (#[trigger] after[j]).fingerprint() by {
                assert(after[i] == items[i]);
                if j < items.len() {
                    assert(after[j] == items[j]);
                }
            }
        },
    }
}

/// The matches of one detection, in the order in which they were found. No
/// two of them have the same fingerprint.
#[derive(Debug)]
pub struct CharsetMatches {
    pub items: Vec<CharsetMatch>,
}

impl View for CharsetMatches {
    type V = Seq<MatchView>;

    open spec fn view(&self) -> Seq<MatchView> {
        match_views(self.items@)
    }
}

impl CharsetMatches {
    /// No two matches have the same fingerprint.
    pub open spec fn wf(&self) -> bool {
        distinct_fingerprints(self@)
    }

    /// The first `n` of `items`, appended one after the other.
    pub open spec fn collected(items: Seq<MatchView>, n: int) -> Seq<MatchView>
        decreases n,
    {
        if n <= 0 {
            seq![]
        } else {
            appended(Self::collected(items, n - 1), items[n - 1])
        }
    }

    /// The set of the given matches, appended in their order; the empty set
    /// where none are given.
    pub fn new(items: Option<Vec<CharsetMatch>>) -> (r: Self)
        ensures
            r.wf(),
            r@ == match items {
                Some(given) => Self::collected(match_views(given@), given@.len() as int),
                None => Seq::<MatchView>::empty(),
            },
    {
        let mut out = CharsetMatches { items: Vec::new() };
        assert(out@ =~= Seq::<MatchView>::empty());
        match items {
            Some(given) => {
                let mut i: usize = 0;
                while i < given.len()
                    invariant
                        i <= given.len(),
                        out.wf(),
                        out@ == Self::collected(match_views(given@), i as int),
                    decreases given.len() - i,
                {
                    out.append(given[i].clone());
                    i += 1;
                }
            },
            None => {},
        }
        out
    }

    /// Where the first match with the fingerprint stands.
    fn find_fingerprint(&self, fingerprint: u64) -> (r: Option<usize>)
        ensures
            r is Some == fingerprint_position(self@, fingerprint, 0) is Some,
            r matches Some(i) ==> fingerprint_position(self@, fingerprint, 0) == Some(i as int)
                && i < self.items@.len(),
    {
        let mut i: usize = 0;
        while i < self.items.len()
            invariant
                i <= self.items.len(),
                fingerprint_position(self@, fingerprint, 0) == fingerprint_position(
                    self@,
                    fingerprint,
                    i as int,
                ),
            decreases self.items.len() - i,
        {
            assert(self@[i as int] == self.items@[i as int]@);
            if self.items[i].fingerprint() == fingerprint {
                return Some(i);
            }
            i += 1;
        }
        None
    }

    /// Appends a match. Where a match with the same fingerprint is there
    /// already, the new one becomes an alias of it.
    pub fn append(&mut self, item: CharsetMatch)
        requires
            old(self).wf(),
        ensures
            final(self).wf(),
            final(self)@ == appended(old(self)@, item@),
    {
        proof {
            lemma_appended_distinct(self@, item@);
        }
        let ghost before = self@;
        match self.find_fingerprint(item.fingerprint()) {
            Some(i) => {
                assert(before[i as int] == self.items@[i as int]@);
                let mut found = self.items.remove(i);
                found.add_submatch(&item);
                self.items.insert(i, found);
                assert(self@ =~= before.update(i as int, before[i as int].merged(item@)));
            },
            None => {
                self.items.push(item);
                assert(self@ =~= before.push(item@));
            },
        }
    }

    /// The best match: the first one.
    pub fn get_best(&self) -> (r: Option<&CharsetMatch>)
        ensures
            r is Some == (self@.len() > 0),
            r matches Some(best) ==> best@ == self@[0],
    {
        if self.items.len() > 0 {
            Some(&self.items[0])
        } else {
            None
        }
    }

    /// The first match that answers to the name as it stands: as its own
    /// encoding or as one of its aliases.
    pub fn get_by_name(&self, name: &str) -> (r: Option<&CharsetMatch>)
        ensures
            match encoding_position(self@, name@, 0) {
                Some(i) => r matches Some(found) && found@ == self@[i] && 0 <= i < self@.len(),
                None => r is None,
            },
    {
        let mut i: usize = 0;
        while i < self.items.len()
            invariant
                i <= self.items.len(),
                encoding_position(self@, name@, 0) == encoding_position(self@, name@, i as int),
            decreases self.items.len() - i,
        {
            let item = &self.items[i];
            assert(self@[i as int] == item@);
            if str_eq(item.encoding.as_str(), name) || list_contains(
                item.aliases.as_slice(),
                name,
            ) {
                return Some(item);
            }
            i += 1;
        }
        None
    }

    /// The first match that answers to the encoding, under its canonical
    /// name: as its own encoding or as one of its aliases.
    pub fn get_by_encoding(&self, encoding: &str, tables: &Tables) -> (r: Option<&CharsetMatch>)
        ensures
            match iana_name_spec(encoding@, views(tables.iana_supported@)) {
                Some(name) => match encoding_position(self@, name, 0) {
                    Some(i) => r matches Some(found) && found@ == self@[i] && 0 <= i < self@.len(),
                    None => r is None,
                },
                None => r is None,
            },
    {
        match iana_name(encoding, tables) {
            Some(name) => self.get_by_name(name.as_str()),
            None => None,
        }
    }

    /// Whether there is no match.
    pub fn is_empty(&self) -> (r: bool)
        ensures
            r == (self@.len() == 0),
    {
        self.items.len() == 0
    }

    /// The number of matches.
    pub fn len(&self) -> (r: usize)
        ensures
            r == self@.len(),
    {
        self.items.len()
    }
}

} // verus!
