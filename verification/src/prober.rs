//! The prober: which encodings are tried, in what order, and what becomes of
//! each.
//!
//! Detection is stated twice. The ghost functions of this file say what the
//! result is, as a function of the payload, the settings and the tables, over
//! the named results of the codecs. The executable functions compute it, and
//! are proved to yield what the ghost functions say.

use crate::assets::{Tables, ENCODING_MARK_SEARCH_ZONE, MAX_PROCESSED_BYTES, TOO_BIG_SEQUENCE};
use crate::cache::Classifier;
use crate::cd::{
    coherence_ratio_chars, coherence_ratio_spec, encoding_languages, hinted_languages, list_views,
    mb_encoding_languages, merge_coherence_ratios, merge_spec,
};
use crate::codec::DecoderTrap;
use crate::entity::{
    appended,
    clone_names,
    coherence_views,
    encoding_position,
    CharsetMatch,
    CharsetMatches,
    CoherenceMatches,
    MatchView,
    NormalizerSettings,
};
use crate::md::{mess_ratio_spec, mess_ratio_with};
use crate::ratio::RATIO_ONE;
use crate::text::{chars_of, find_name, list_contains, name_position, str_eq, views};
use crate::declared::{any_specified_encoding, any_specified_encoding_spec};
use crate::ranges::word_views;
use crate::utils::{
    concatenate_slices,
    decode,
    decode_spec,
    iana_name,
    iana_name_spec,
    identify_sig_or_bom,
    is_cp_similar,
    is_cp_similar_spec,
    is_multi_byte_encoding,
    mark_index_from,
    multi_byte_names,
    should_strip_sig_or_bom,
    slice_subrange,
};
use vstd::prelude::*;

verus! {

/// The mean mess below which a prioritized encoding wins at once: one tenth.
pub const WINNER_CUTOFF: u32 = 10_000;

/// What is known of the settings.
pub struct SettingsView {
    pub steps: int,
    pub chunk_size: int,
    pub threshold: int,
    pub language_threshold: int,
    pub preemptive: bool,
    pub fallback: bool,
    pub included: Seq<Seq<char>>,
    pub excluded: Seq<Seq<char>>,
}

impl View for NormalizerSettings {
    type V = SettingsView;

    open spec fn view(&self) -> SettingsView {
        SettingsView {
            steps: self.steps as int,
            chunk_size: self.chunk_size as int,
            threshold: self.threshold as int,
            language_threshold: self.language_threshold as int,
            preemptive: self.preemptive_behaviour,
            fallback: self.enable_fallback,
            included: views(self.include_encodings@),
            excluded: views(self.exclude_encodings@),
        }
    }
}

/// Every name resolves to a canonical name.
pub open spec fn resolvable(names: Seq<Seq<char>>, supported: Seq<Seq<char>>) -> bool {
    forall|i: int| 0 <= i < names.len() ==> iana_name_spec(#[trigger] names[i], supported) is Some
}

/// The canonical names of the given names.
pub open spec fn resolved(names: Seq<Seq<char>>, supported: Seq<Seq<char>>) -> Seq<Seq<char>> {
    Seq::new(names.len(), |i: int| iana_name_spec(names[i], supported)->0)
}

/// The settings are fit for a detection: at least one step, chunks of at
/// least one unit, and names that resolve.
pub open spec fn valid_settings(settings: SettingsView, tables: &Tables) -> bool {
    &&& settings.steps >= 1
    &&& settings.chunk_size >= 1
    &&& resolvable(settings.included, views(tables.iana_supported@))
    &&& resolvable(settings.excluded, views(tables.iana_supported@))
}

/// The number of steps that is taken for a payload of `len` bytes: one where
/// the payload is no longer than the chunks asked for.
pub open spec fn effective_steps(len: int, steps: int, chunk_size: int) -> int {
    if len <= steps * chunk_size {
        1
    } else {
        steps
    }
}

/// The size of a chunk that is taken for a payload of `len` bytes.
pub open spec fn effective_chunk_size(len: int, steps: int, chunk_size: int) -> int {
    if len <= steps * chunk_size {
        len
    } else if steps > 1 && len / steps < chunk_size {
        len / steps
    } else {
        chunk_size
    }
}

/// The encodings that are tried first: the declared one, the one of the
/// signature, then `ascii` and `utf-8`.
pub open spec fn prioritized_spec(specified: Option<Seq<char>>, sig: Option<Seq<char>>) -> Seq<
    Seq<char>,
> {
    let declared = match specified {
        Some(name) => seq![name],
        None => seq![],
    };
    let marked = match sig {
        Some(name) => seq![name],
        None => seq![],
    };
    declared + marked + seq!["ascii"@, "utf-8"@]
}

/// A list with the first entry that equals `name` moved to its front.
pub open spec fn moved_to_front(list: Seq<Seq<char>>, name: Seq<char>) -> Seq<Seq<char>> {
    match name_position(list, name, 0) {
        Some(i) => list.remove(i).insert(0, list[i]),
        None => list,
    }
}

/// The supported encodings after the last `k` of the prioritized ones have
/// been moved to the front, the last of them first.
pub open spec fn order_after(supported: Seq<Seq<char>>, prioritized: Seq<Seq<char>>, k: int) -> Seq<
    Seq<char>,
>
    decreases k,
{
    if k <= 0 {
        supported
    } else {
        moved_to_front(order_after(supported, prioritized, k - 1), prioritized[prioritized.len() - k])
    }
}

/// The order in which the encodings are probed: the supported ones, with the
/// prioritized ones in front, in their order.
pub open spec fn probe_order(supported: Seq<Seq<char>>, prioritized: Seq<Seq<char>>) -> Seq<
    Seq<char>,
> {
    order_after(supported, prioritized, prioritized.len() as int)
}

/// What is settled before the first encoding is probed.
pub struct PlanView {
    pub steps: int,
    pub chunk_size: int,
    pub threshold: int,
    pub language_threshold: int,
    pub fallback: bool,
    pub included: Seq<Seq<char>>,
    pub excluded: Seq<Seq<char>>,
    pub specified: Option<Seq<char>>,
    pub sig_encoding: Option<Seq<char>>,
    pub sig_len: int,
    pub prioritized: Seq<Seq<char>>,
    pub too_large: bool,
}

/// The plan for a payload under the settings.
pub open spec fn plan_of(bytes: Seq<u8>, settings: SettingsView, tables: &Tables) -> PlanView {
    let supported = views(tables.iana_supported@);
    let len = bytes.len() as int;
    let specified = if settings.preemptive {
        any_specified_encoding_spec(bytes, ENCODING_MARK_SEARCH_ZONE as int, supported)
    } else {
        None
    };
    let mark = mark_index_from(tables.marks@, bytes, 0);
    let sig_encoding = match mark {
        Some(i) => Some(tables.marks@[i].encoding@),
        None => None,
    };
    PlanView {
        steps: effective_steps(len, settings.steps, settings.chunk_size),
        chunk_size: effective_chunk_size(len, settings.steps, settings.chunk_size),
        threshold: settings.threshold,
        language_threshold: settings.language_threshold,
        fallback: settings.fallback,
        included: resolved(settings.included, supported),
        excluded: resolved(settings.excluded, supported),
        specified,
        sig_encoding,
        sig_len: match mark {
            Some(i) => tables.marks@[i].signature@.len() as int,
            None => 0,
        },
        prioritized: prioritized_spec(specified, sig_encoding),
        too_large: len > TOO_BIG_SEQUENCE,
    }
}

/// The plan, as the prober holds it.
pub struct Plan {
    pub steps: usize,
    pub chunk_size: usize,
    pub threshold: u32,
    pub language_threshold: u32,
    pub enable_fallback: bool,
    pub included: Vec<String>,
    pub excluded: Vec<String>,
    pub specified: Option<String>,
    pub sig_encoding: Option<String>,
    pub sig_len: usize,
    pub prioritized: Vec<String>,
    pub too_large: bool,
}

impl View for Plan {
    type V = PlanView;

    open spec fn view(&self) -> PlanView {
        PlanView {
            steps: self.steps as int,
            chunk_size: self.chunk_size as int,
            threshold: self.threshold as int,
            language_threshold: self.language_threshold as int,
            fallback: self.enable_fallback,
            included: views(self.included@),
            excluded: views(self.excluded@),
            specified: match self.specified {
                Some(name) => Some(name@),
                None => None,
            },
            sig_encoding: match self.sig_encoding {
                Some(name) => Some(name@),
                None => None,
            },
            sig_len: self.sig_len as int,
            prioritized: views(self.prioritized@),
            too_large: self.too_large,
        }
    }
}

/// The place of the first name at or behind `from` that does not resolve.
pub open spec fn first_unresolved(names: Seq<Seq<char>>, supported: Seq<Seq<char>>, from: int) -> Option<
    int,
>
    decreases names.len() - from,
{
    if from < 0 || from >= names.len() {
        None
    } else if iana_name_spec(names[from], supported) is None {
        Some(from)
    } else {
        first_unresolved(names, supported, from + 1)
    }
}

/// Every name resolves exactly if there is no first name that does not.
pub proof fn lemma_first_unresolved(names: Seq<Seq<char>>, supported: Seq<Seq<char>>, from: int)
    requires
        0 <= from,
    ensures
        match first_unresolved(names, supported, from) {
            Some(i) => from <= i < names.len() && iana_name_spec(names[i], supported) is None,
            None => forall|k: int|
                from <= k < names.len() ==> iana_name_spec(#[trigger] names[k], supported) is Some,
        },
    decreases names.len() - from,
{
    if from < names.len() && iana_name_spec(names[from], supported) is Some {
        lemma_first_unresolved(names, supported, from + 1);
    }
}

/// Resolves the names of a list to canonical names. The error is the first
/// name that does not resolve.
pub fn resolve_names(names: &Vec<String>, tables: &Tables) -> (r: Result<Vec<String>, String>)
    ensures
        r is Ok == resolvable(views(names@), views(tables.iana_supported@)),
        match first_unresolved(views(names@), views(tables.iana_supported@), 0) {
            Some(i) => r matches Err(name) && name@ == views(names@)[i],
            None => r matches Ok(out) && views(out@) == resolved(
                views(names@),
                views(tables.iana_supported@),
            ),
        },
{
    let ghost supported = views(tables.iana_supported@);
    proof {
        lemma_first_unresolved(views(names@), supported, 0);
    }
    let mut out: Vec<String> = Vec::new();
    let mut i: usize = 0;
    while i < names.len()
        invariant
            i <= names.len(),
            supported == views(tables.iana_supported@),
            out@.len() == i,
            first_unresolved(views(names@), supported, 0) == first_unresolved(
                views(names@),
                supported,
                i as int,
            ),
            forall|k: int|
                0 <= k < i ==> Some(out@[k]@) == iana_name_spec(
                    #[trigger] views(names@)[k],
                    supported,
                ),
        decreases names.len() - i,
    {
        assert(views(names@)[i as int] == names@[i as int]@);
        match iana_name(names[i].as_str(), tables) {
            Some(name) => {
                out.push(name);
            },
            None => {
                return Err(names[i].clone());
            },
        }
        i += 1;
    }
    assert(views(out@) =~= resolved(views(names@), supported));
    Ok(out)
}

/// The steps and the chunk size that fit a payload of `len` bytes.
pub fn fit_steps(len: usize, steps: usize, chunk_size: usize) -> (r: (usize, usize))
    requires
        steps >= 1,
        chunk_size >= 1,
        len >= 1,
    ensures
        r.0 == effective_steps(len as int, steps as int, chunk_size as int),
        r.1 == effective_chunk_size(len as int, steps as int, chunk_size as int),
        r.0 >= 1,
        r.1 >= 1,
{
    assert(steps * chunk_size <= 0xffff_ffff_ffff_ffff * 0xffff_ffff_ffff_ffff) by (nonlinear_arith)
        requires
            steps <= 0xffff_ffff_ffff_ffff,
            chunk_size <= 0xffff_ffff_ffff_ffff,
    ;
    let asked: u128 = (steps as u128) * (chunk_size as u128);
    if (len as u128) <= asked {
        (1, len)
    } else if steps > 1 && len / steps < chunk_size {
        assert(len / steps >= 1) by (nonlinear_arith)
            requires
                len > steps * chunk_size,
                chunk_size >= 1,
                steps >= 1,
        ;
        (steps, len / steps)
    } else {
        (steps, chunk_size)
    }
}

/// Moves the first entry that equals `name` to the front.
fn move_to_front(list: &mut Vec<String>, name: &str)
    ensures
        views(final(list)@) == moved_to_front(views(old(list)@), name@),
{
    let ghost before = views(list@);
    match find_name(list, name) {
        Some(i) => {
            let value = list.remove(i);
            list.insert(0, value);
            assert(views(list@) =~= before.remove(i as int).insert(0, before[i as int]));
        },
        None => {},
    }
}

/// The supported encodings in the order in which they are probed.
pub fn order_encodings(tables: &Tables, prioritized: &Vec<String>) -> (order: Vec<String>)
    ensures
        views(order@) == probe_order(views(tables.iana_supported@), views(prioritized@)),
{
    let mut order = clone_names(&tables.iana_supported);
    let n = prioritized.len();
    let mut k: usize = 0;
    while k < n
        invariant
            k <= n,
            n == prioritized.len(),
            views(order@) == order_after(
                views(tables.iana_supported@),
                views(prioritized@),
                k as int,
            ),
        decreases n - k,
    {
        assert(views(prioritized@)[n - k - 1] == prioritized@[n - k - 1]@);
        move_to_front(&mut order, prioritized[n - k - 1].as_str());
        k += 1;
    }
    order
}

/// Settles what is needed before the first encoding is probed.
pub fn make_plan(bytes: &[u8], settings: &NormalizerSettings, tables: &Tables) -> (plan: Plan)
    requires
        bytes@.len() > 0,
        valid_settings(settings@, tables),
    ensures
        plan@ == plan_of(bytes@, settings@, tables),
        plan.steps >= 1,
        plan.chunk_size >= 1,
        plan.sig_len <= bytes@.len(),
{
    let included = match resolve_names(&settings.include_encodings, tables) {
        Ok(names) => names,
        Err(_) => Vec::new(),
    };
    let excluded = match resolve_names(&settings.exclude_encodings, tables) {
        Ok(names) => names,
        Err(_) => Vec::new(),
    };
    let (steps, chunk_size) = fit_steps(bytes.len(), settings.steps, settings.chunk_size);
    let mut prioritized: Vec<String> = Vec::new();
    assert(views(prioritized@) =~= seq![]);
    let specified = if settings.preemptive_behaviour {
        any_specified_encoding(bytes, ENCODING_MARK_SEARCH_ZONE, tables)
    } else {
        None
    };
    match &specified {
        Some(name) => {
            prioritized.push(name.clone());
            assert(views(prioritized@) =~= seq![name@]);
        },
        None => {},
    }
    let (sig_encoding, sig_payload) = identify_sig_or_bom(bytes, tables);
    let sig_len = match sig_payload {
        Some(signature) => signature.len(),
        None => 0,
    };
    let ghost declared = views(prioritized@);
    match &sig_encoding {
        Some(name) => {
            prioritized.push(name.clone());
            assert(views(prioritized@) =~= declared + seq![name@]);
        },
        None => {
            assert(views(prioritized@) =~= declared + seq![]);
        },
    }
    let ghost marked = views(prioritized@);
    prioritized.push("ascii".to_owned());
    prioritized.push("utf-8".to_owned());
    assert(views(prioritized@) =~= marked + seq!["ascii"@, "utf-8"@]);
    Plan {
        steps,
        chunk_size,
        threshold: settings.threshold,
        language_threshold: settings.language_threshold,
        enable_fallback: settings.enable_fallback,
        included,
        excluded,
        specified,
        sig_encoding,
        sig_len,
        prioritized,
        too_large: bytes.len() > TOO_BIG_SEQUENCE,
    }
}


/// The smaller of two numbers.
pub open spec fn smaller(a: int, b: int) -> int {
    if a < b {
        a
    } else {
        b
    }
}

/// The payload begins with the signature of the encoding.
pub open spec fn has_mark(plan: PlanView, encoding: Seq<char>) -> bool {
    plan.sig_encoding == Some(encoding)
}

/// Whether the signature of an encoding is cut off before decoding: always.
pub open spec fn should_strip_spec(encoding: Seq<char>) -> bool {
    true
}

/// The payload begins with the signature of the encoding, and decoding
/// leaves it out.
pub open spec fn strips_mark(plan: PlanView, encoding: Seq<char>) -> bool {
    has_mark(plan, encoding) && should_strip_spec(encoding)
}

/// The payload begins with the signature of the encoding, and decoding keeps
/// it.
pub open spec fn keeps_mark(plan: PlanView, encoding: Seq<char>) -> bool {
    has_mark(plan, encoding) && !should_strip_spec(encoding)
}

/// The payload is too large to be decoded as a whole in this encoding: a
/// single-byte one.
pub open spec fn is_lazy(plan: PlanView, encoding: Seq<char>) -> bool {
    plan.too_large && !multi_byte_names().contains(encoding)
}

/// An encoding that cannot be told from noise without its byte-order mark.
pub open spec fn needs_mark(encoding: Seq<char>) -> bool {
    ||| encoding == "utf-16le"@
    ||| encoding == "utf-16be"@
    ||| encoding == "utf-32le"@
    ||| encoding == "utf-32be"@
}

/// The encoding is not probed: the settings leave it out, or it needs a mark
/// that the payload does not begin with.
pub open spec fn is_skipped(plan: PlanView, encoding: Seq<char>) -> bool {
    ||| (plan.included.len() > 0 && !plan.included.contains(encoding))
    ||| plan.excluded.contains(encoding)
    ||| (!has_mark(plan, encoding) && needs_mark(encoding))
}

/// Where the first strict decoding ends.
pub open spec fn precheck_end(plan: PlanView, encoding: Seq<char>, len: int) -> int {
    if is_lazy(plan, encoding) {
        smaller(MAX_PROCESSED_BYTES as int, len)
    } else {
        len
    }
}

/// Where the first strict decoding begins: behind the signature.
pub open spec fn precheck_start(plan: PlanView, encoding: Seq<char>, len: int) -> int {
    if strips_mark(plan, encoding) {
        smaller(plan.sig_len, precheck_end(plan, encoding, len))
    } else {
        0
    }
}

/// The first strict decoding: of the whole payload, or of its first part
/// where the payload is decoded lazily, in which case no text is kept.
pub open spec fn precheck(bytes: Seq<u8>, plan: PlanView, encoding: Seq<char>) -> Result<
    Seq<char>,
    Seq<char>,
> {
    decode_spec(
        bytes.subrange(
            precheck_start(plan, encoding, bytes.len() as int),
            precheck_end(plan, encoding, bytes.len() as int),
        ),
        encoding,
        DecoderTrap::Strict,
        is_lazy(plan, encoding),
        false,
    )
}

/// What the reading of the chunks of one encoding has yielded.
pub struct ChunkReport {
    /// The mess of every chunk that was read.
    pub ratios: Seq<int>,
    /// The text of every chunk that was read.
    pub chunks: Seq<Seq<char>>,
    /// How many chunks were too messy.
    pub gave_up: int,
    /// Whether a chunk could not be decoded.
    pub failed: bool,
}

/// The number of messy chunks at which an encoding is given up.
pub open spec fn gave_up_limit(steps: int) -> int {
    if steps / 4 > 2 {
        steps / 4
    } else {
        2
    }
}

/// The length of what the chunks are cut from: the text where the payload
/// was decoded as a whole, else the payload.
pub open spec fn sequence_length(bytes: Seq<u8>, payload: Option<Seq<char>>) -> int {
    match payload {
        Some(text) => text.len() as int,
        None => bytes.len() as int,
    }
}

/// The distance between the starts of two chunks.
pub open spec fn stride(sequence_length: int, steps: int) -> int {
    if sequence_length / steps > 1 {
        sequence_length / steps
    } else {
        1
    }
}

/// Where the first chunk starts.
pub open spec fn first_offset(plan: PlanView, encoding: Seq<char>, payload: Option<Seq<char>>) -> int {
    if has_mark(plan, encoding) && payload is None {
        plan.sig_len
    } else {
        0
    }
}

/// The text of the chunk that starts at `offset`.
pub open spec fn chunk_text(
    bytes: Seq<u8>,
    plan: PlanView,
    encoding: Seq<char>,
    payload: Option<Seq<char>>,
    offset: int,
) -> Result<Seq<char>, Seq<char>> {
    let end = smaller(offset + plan.chunk_size, sequence_length(bytes, payload));
    match payload {
        Some(text) => Ok(text.subrange(offset, end)),
        None => {
            let cut = bytes.subrange(offset, end);
            let input = if keeps_mark(plan, encoding) {
                bytes.subrange(0, plan.sig_len) + cut
            } else {
                cut
            };
            decode_spec(input, encoding, DecoderTrap::Strict, false, false)
        },
    }
}

/// Every character is one of the first 128 code points.
pub open spec fn all_ascii(text: Seq<char>) -> bool {
    forall|i: int| 0 <= i < text.len() ==> (#[trigger] text[i]) as u32 <= 0x7F
}

/// No further chunk is read.
pub open spec fn halted(report: ChunkReport, plan: PlanView, encoding: Seq<char>) -> bool {
    ||| report.failed
    ||| report.gave_up >= gave_up_limit(plan.steps)
    ||| (keeps_mark(plan, encoding) && report.chunks.len() > 0)
}

/// A chunk is unfit for an encoding if it cannot be decoded, or if it is not
/// ASCII where the encoding is `ascii`.
pub open spec fn unfit(chunk: Result<Seq<char>, Seq<char>>, encoding: Seq<char>) -> bool {
    match chunk {
        Ok(text) => encoding == "ascii"@ && !all_ascii(text),
        Err(_) => true,
    }
}

impl ChunkReport {
    /// The report after a chunk that fails the encoding: the encoding is
    /// given up at once.
    pub open spec fn failed_at(self, limit: int) -> ChunkReport {
        ChunkReport { gave_up: limit, failed: true, ..self }
    }

    /// The report after a chunk that was read: its mess is recorded, and
    /// counted where it reaches the threshold.
    pub open spec fn taken(self, text: Seq<char>, mess: int, threshold: int) -> ChunkReport {
        ChunkReport {
            ratios: self.ratios.push(mess),
            chunks: self.chunks.push(text),
            gave_up: if mess >= threshold {
                self.gave_up + 1
            } else {
                self.gave_up
            },
            failed: false,
        }
    }
}

/// The report after one more chunk. An unfit chunk fails the encoding. Else
/// the mess of the chunk is recorded.
pub open spec fn chunk_fed(
    report: ChunkReport,
    chunk: Result<Seq<char>, Seq<char>>,
    plan: PlanView,
    encoding: Seq<char>,
    tables: &Tables,
) -> ChunkReport {
    if unfit(chunk, encoding) {
        report.failed_at(gave_up_limit(plan.steps))
    } else {
        report.taken(
            chunk->Ok_0,
            mess_ratio_spec(chunk->Ok_0, plan.threshold, tables),
            plan.threshold,
        )
    }
}

/// The report after at most `k` chunks. The chunks start `stride` apart; the
/// reading ends where it is halted or where the sequence ends.
pub open spec fn chunks_read(
    bytes: Seq<u8>,
    plan: PlanView,
    tables: &Tables,
    encoding: Seq<char>,
    payload: Option<Seq<char>>,
    k: int,
) -> ChunkReport
    decreases k,
{
    if k <= 0 {
        ChunkReport { ratios: seq![], chunks: seq![], gave_up: 0, failed: false }
    } else {
        let before = chunks_read(bytes, plan, tables, encoding, payload, k - 1);
        let seq_len = sequence_length(bytes, payload);
        let offset = first_offset(plan, encoding, payload) + (k - 1) * stride(seq_len, plan.steps);
        if halted(before, plan, encoding) || offset >= seq_len {
            before
        } else {
            chunk_fed(before, chunk_text(bytes, plan, encoding, payload, offset), plan, encoding, tables)
        }
    }
}

/// Once the reading has ended, further steps change nothing.
pub proof fn lemma_chunks_settled(
    bytes: Seq<u8>,
    plan: PlanView,
    tables: &Tables,
    encoding: Seq<char>,
    payload: Option<Seq<char>>,
    k: int,
    m: int,
)
    requires
        0 <= k <= m,
        halted(chunks_read(bytes, plan, tables, encoding, payload, k), plan, encoding)
            || first_offset(plan, encoding, payload) + k * stride(
            sequence_length(bytes, payload),
            plan.steps,
        ) >= sequence_length(bytes, payload),
    ensures
        chunks_read(bytes, plan, tables, encoding, payload, m) == chunks_read(
            bytes,
            plan,
            tables,
            encoding,
            payload,
            k,
        ),
    decreases m - k,
{
    if k < m {
        lemma_chunks_settled(bytes, plan, tables, encoding, payload, k, m - 1);
        let step = stride(sequence_length(bytes, payload), plan.steps);
        assert((m - 1) * step >= k * step) by (nonlinear_arith)
            requires
                m - 1 >= k,
                step >= 1,
        ;
    }
}

/// What the reading of the chunks of one encoding has yielded, as the prober
/// holds it.
pub struct ChunkReading {
    pub ratios: Vec<u32>,
    pub chunks: Vec<Vec<char>>,
    pub gave_up: usize,
    pub failed: bool,
}

/// The ratios of a list as numbers.
pub open spec fn ratio_views(ratios: Seq<u32>) -> Seq<int> {
    ratios.map_values(|r: u32| r as int)
}

impl View for ChunkReading {
    type V = ChunkReport;

    open spec fn view(&self) -> ChunkReport {
        ChunkReport {
            ratios: ratio_views(self.ratios@),
            chunks: word_views(self.chunks@),
            gave_up: self.gave_up as int,
            failed: self.failed,
        }
    }
}

/// The view of a text that may be absent.
pub open spec fn payload_view(payload: Option<Vec<char>>) -> Option<Seq<char>> {
    match payload {
        Some(text) => Some(text@),
        None => None,
    }
}

/// Whether every character is one of the first 128 code points.
pub fn is_ascii_text(text: &[char]) -> (r: bool)
    ensures
        r == all_ascii(text@),
{
    let mut i: usize = 0;
    while i < text.len()
        invariant
            i <= text.len(),
            forall|k: int| 0 <= k < i ==> (#[trigger] text@[k]) as u32 <= 0x7F,
        decreases text.len() - i,
    {
        if text[i] as u32 > 0x7F {
            return false;
        }
        i += 1;
    }
    true
}

/// A copy of a run of characters.
pub fn copy_chars(text: &[char]) -> (out: Vec<char>)
    ensures
        out@ == text@,
{
    let mut out: Vec<char> = Vec::new();
    let mut i: usize = 0;
    while i < text.len()
        invariant
            i <= text.len(),
            out@ == text@.take(i as int),
        decreases text.len() - i,
    {
        out.push(text[i]);
        assert(text@.take(i + 1) =~= text@.take(i as int).push(text@[i as int]));
        i += 1;
    }
    assert(text@.take(text@.len() as int) =~= text@);
    out
}

/// The number of messy chunks at which an encoding is given up.
pub fn max_chunk_gave_up(steps: usize) -> (r: usize)
    ensures
        r == gave_up_limit(steps as int),
{
    if steps / 4 > 2 {
        steps / 4
    } else {
        2
    }
}

/// Cuts the chunk that starts at `offset` and decodes it where the payload
/// was not decoded as a whole.
pub fn cut_chunk(
    bytes: &[u8],
    plan: &Plan,
    encoding: &str,
    payload: &Option<Vec<char>>,
    offset: usize,
) -> (r: Result<Vec<char>, String>)
    requires
        plan.sig_len <= bytes@.len(),
        offset < sequence_length(bytes@, payload_view(*payload)),
    ensures
        match chunk_text(bytes@, plan@, encoding@, payload_view(*payload), offset as int) {
            Ok(text) => r matches Ok(chunk) && chunk@ == text,
            Err(cause) => r matches Err(e) && e@ == cause,
        },
{
    let bom_or_sig_available = match &plan.sig_encoding {
        Some(name) => str_eq(name.as_str(), encoding),
        None => false,
    };
    let strip_sig_or_bom = bom_or_sig_available && should_strip_sig_or_bom(encoding);
    match payload {
        Some(text) => {
            let room = text.len() - offset;
            let end = if plan.chunk_size < room {
                offset + plan.chunk_size
            } else {
                text.len()
            };
            Ok(copy_chars(slice_subrange(text.as_slice(), offset, end)))
        },
        None => {
            let room = bytes.len() - offset;
            let end = if plan.chunk_size < room {
                offset + plan.chunk_size
            } else {
                bytes.len()
            };
            let cut = slice_subrange(bytes, offset, end);
            let decoded = if bom_or_sig_available && !strip_sig_or_bom {
                let input = concatenate_slices(slice_subrange(bytes, 0, plan.sig_len), cut);
                decode(input.as_slice(), encoding, DecoderTrap::Strict, false, false)
            } else {
                decode(cut, encoding, DecoderTrap::Strict, false, false)
            };
            match decoded {
                Ok(text) => Ok(chars_of(text.as_str())),
                Err(cause) => Err(cause),
            }
        },
    }
}

/// The view of a chunk that was decoded, or not.
pub open spec fn chunk_view(chunk: Result<Vec<char>, String>) -> Result<Seq<char>, Seq<char>> {
    match chunk {
        Ok(text) => Ok(text@),
        Err(cause) => Err(cause@),
    }
}

/// Whether a chunk is unfit for an encoding.
pub fn is_unfit(chunk: &Result<Vec<char>, String>, encoding: &str) -> (r: bool)
    ensures
        r == unfit(chunk_view(*chunk), encoding@),
{
    match chunk {
        Ok(text) => str_eq(encoding, "ascii") && !is_ascii_text(text.as_slice()),
        Err(_) => true,
    }
}

impl ChunkReading {
    /// The ratios are ratios, and there is one for every chunk.
    pub open spec fn wf(&self) -> bool {
        &&& self.ratios@.len() == self.chunks@.len()
        &&& forall|i: int| 0 <= i < self.ratios@.len() ==> self.ratios@[i] <= RATIO_ONE
    }

    /// A reading before the first chunk.
    pub fn new() -> (r: Self)
        ensures
            r.wf(),
            r@ == (ChunkReport { ratios: seq![], chunks: seq![], gave_up: 0, failed: false }),
    {
        let r = ChunkReading { ratios: Vec::new(), chunks: Vec::new(), gave_up: 0, failed: false };
        assert(ratio_views(r.ratios@) =~= seq![]);
        assert(word_views(r.chunks@) =~= seq![]);
        r
    }

    /// Records that a chunk fails the encoding.
    pub fn fail(&mut self, steps: usize)
        requires
            old(self).wf(),
        ensures
            final(self).wf(),
            final(self)@ == old(self)@.failed_at(gave_up_limit(steps as int)),
    {
        self.gave_up = max_chunk_gave_up(steps);
        self.failed = true;
    }

    /// Records a chunk that was read, with its mess.
    pub fn take(&mut self, text: Vec<char>, mess: u32, threshold: u32)
        requires
            old(self).wf(),
            old(self).gave_up < usize::MAX,
            mess <= RATIO_ONE,
        ensures
            final(self).wf(),
            final(self)@ == old(self)@.taken(text@, mess as int, threshold as int),
    {
        let ghost ratios = ratio_views(self.ratios@);
        let ghost chunks = word_views(self.chunks@);
        self.ratios.push(mess);
        self.chunks.push(text);
        assert(ratio_views(self.ratios@) =~= ratios.push(mess as int));
        assert(word_views(self.chunks@) =~= chunks.push(text@));
        if mess >= threshold {
            self.gave_up = self.gave_up + 1;
        }
        self.failed = false;
    }
}

/// Takes one chunk into the reading.
pub fn feed_chunk(
    reading: &mut ChunkReading,
    chunk: Result<Vec<char>, String>,
    plan: &Plan,
    encoding: &str,
    tables: &Tables,
    classifier: &mut Classifier,
)
    requires
        old(classifier).wf(tables),
        old(reading).wf(),
        old(reading).gave_up < usize::MAX,
    ensures
        final(classifier).wf(tables),
        final(reading).wf(),
        final(reading)@ == chunk_fed(old(reading)@, chunk_view(chunk), plan@, encoding@, tables),
        final(reading).failed || final(reading).gave_up <= old(reading).gave_up + 1,
{
    if is_unfit(&chunk, encoding) {
        reading.fail(plan.steps);
        return ;
    }
    match chunk {
        Ok(text) => {
            let mess = mess_ratio_with(text.as_slice(), Some(plan.threshold), tables, classifier);
            reading.take(text, mess, plan.threshold);
        },
        Err(_) => {},
    }
}

/// Reads the chunks of the payload in one encoding.
pub fn read_chunks(
    bytes: &[u8],
    plan: &Plan,
    tables: &Tables,
    encoding: &str,
    payload: &Option<Vec<char>>,
    classifier: &mut Classifier,
) -> (reading: ChunkReading)
    requires
        plan.steps >= 1,
        plan.sig_len <= bytes@.len(),
        old(classifier).wf(tables),
    ensures
        final(classifier).wf(tables),
        reading@ == chunks_read(
            bytes@,
            plan@,
            tables,
            encoding@,
            payload_view(*payload),
            plan.steps as int,
        ),
        reading.wf(),
{
    let ghost text = payload_view(*payload);
    let length = match payload {
        Some(text) => text.len(),
        None => bytes.len(),
    };
    let bom_or_sig_available = match &plan.sig_encoding {
        Some(name) => str_eq(name.as_str(), encoding),
        None => false,
    };
    let strip_sig_or_bom = bom_or_sig_available && should_strip_sig_or_bom(encoding);
    let limit = max_chunk_gave_up(plan.steps);
    let step: usize = if length / plan.steps > 1 {
        length / plan.steps
    } else {
        1
    };
    let first: usize = if bom_or_sig_available && payload.is_none() {
        plan.sig_len
    } else {
        0
    };
    let mut reading = ChunkReading::new();
    let mut k: usize = 0;
    let mut offset: u128 = first as u128;
    while k < plan.steps && !reading.failed && reading.gave_up < limit && !(bom_or_sig_available
        && !strip_sig_or_bom && reading.chunks.len() > 0) && offset < length as u128
        invariant
            k <= plan.steps,
            plan.sig_len <= bytes@.len(),
            classifier.wf(tables),
            text == payload_view(*payload),
            length == sequence_length(bytes@, text),
            bom_or_sig_available == has_mark(plan@, encoding@),
            strip_sig_or_bom == strips_mark(plan@, encoding@),
            limit == gave_up_limit(plan.steps as int),
            step == stride(length as int, plan.steps as int),
            first == first_offset(plan@, encoding@, text),
            offset == first + k * step,
            reading@ == chunks_read(bytes@, plan@, tables, encoding@, text, k as int),
            reading.failed || reading.gave_up <= k,
            reading.wf(),
        decreases plan.steps - k,
    {
        let chunk = cut_chunk(bytes, plan, encoding, payload, offset as usize);
        feed_chunk(&mut reading, chunk, plan, encoding, tables, classifier);
        assert((k + 1) * step == k * step + step) by (nonlinear_arith);
        offset = offset + step as u128;
        k += 1;
    }
    proof {
        if k < plan.steps {
            lemma_chunks_settled(
                bytes@,
                plan@,
                tables,
                encoding@,
                text,
                k as int,
                plan.steps as int,
            );
        }
    }
    reading
}


/// The sum of the first `n` ratios.
pub open spec fn sum_upto(ratios: Seq<int>, n: int) -> int
    decreases n,
{
    if n <= 0 {
        0
    } else {
        sum_upto(ratios, n - 1) + ratios[n - 1]
    }
}

/// The mean of the ratios, rounded down; 0 where there are none.
pub open spec fn mean_mess(ratios: Seq<int>) -> int {
    if ratios.len() == 0 {
        0
    } else {
        sum_upto(ratios, ratios.len() as int) / (ratios.len() as int)
    }
}

/// What lies behind the first part of a lazily decoded payload does not
/// decode, or is not ASCII where the encoding is `ascii`.
pub open spec fn tail_fails(bytes: Seq<u8>, plan: PlanView, encoding: Seq<char>) -> bool {
    is_lazy(plan, encoding) && unfit(
        decode_spec(
            bytes.subrange(
                smaller(MAX_PROCESSED_BYTES as int, bytes.len() as int),
                bytes.len() as int,
            ),
            encoding,
            DecoderTrap::Strict,
            false,
            false,
        ),
        encoding,
    )
}

/// The languages that the coherence of an encoding is weighed against: those
/// that the tables hint at, or all where they hint at none.
pub open spec fn targets_for(encoding: Seq<char>, tables: &Tables) -> Option<Seq<Seq<char>>> {
    let hinted = if multi_byte_names().contains(encoding) {
        hinted_languages(tables.mb_encoding_languages@, encoding, 0)
    } else {
        hinted_languages(tables.encoding_languages@, encoding, 0)
    };
    if hinted.len() == 0 {
        None
    } else {
        Some(hinted)
    }
}

/// The coherence of each of the first `n` chunks.
pub open spec fn chunk_coherence(
    chunks: Seq<Seq<char>>,
    n: int,
    plan: PlanView,
    targets: Option<Seq<Seq<char>>>,
    tables: &Tables,
) -> Seq<Seq<(Seq<char>, int)>>
    decreases n,
{
    if n <= 0 {
        seq![]
    } else {
        chunk_coherence(chunks, n - 1, plan, targets, tables).push(
            coherence_ratio_spec(chunks[n - 1], plan.language_threshold, targets, tables),
        )
    }
}

/// The coherence of an encoding: that of its chunks, merged. It is not
/// weighed for `ascii`.
pub open spec fn coherence_for(
    encoding: Seq<char>,
    chunks: Seq<Seq<char>>,
    plan: PlanView,
    tables: &Tables,
) -> Seq<(Seq<char>, int)> {
    merge_spec(
        if encoding == "ascii"@ {
            seq![]
        } else {
            chunk_coherence(
                chunks,
                chunks.len() as int,
                plan,
                targets_for(encoding, tables),
                tables,
            )
        },
    )
}

/// What the prober knows between two encodings.
pub struct StateView {
    /// The encodings that were given up for their mess.
    pub soft: Seq<Seq<char>>,
    /// The fallback for the declared encoding.
    pub fallback_specified: Option<MatchView>,
    /// The fallback for `ascii`.
    pub fallback_ascii: Option<MatchView>,
    /// The fallback for `utf-8`.
    pub fallback_u8: Option<MatchView>,
    /// The matches so far.
    pub results: Seq<MatchView>,
}

/// What becomes of the probing after one encoding.
pub enum Outcome {
    /// It goes on with the next encoding.
    Next(StateView),
    /// It ends with these matches.
    Done(Seq<MatchView>),
}

/// The encoding is similar to one that was given up for its mess.
pub open spec fn similar_to_failed(encoding: Seq<char>, soft: Seq<Seq<char>>, tables: &Tables) -> bool {
    exists|i: int|
        0 <= i < soft.len() && is_cp_similar_spec(encoding, #[trigger] soft[i], tables.similar@)
}

/// The state after an encoding has been given up for its mess. Where
/// fallbacks are kept and the encoding is a prioritized one whose chunks all
/// decoded, it becomes the fallback of its kind.
pub open spec fn soft_failed(
    state: StateView,
    bytes: Seq<u8>,
    plan: PlanView,
    encoding: Seq<char>,
    payload: Option<Seq<char>>,
    failed: bool,
) -> StateView {
    let soft = state.soft.push(encoding);
    if plan.fallback && !failed && plan.prioritized.contains(encoding) {
        let entry = MatchView {
            encoding,
            mess: plan.threshold,
            bom: false,
            coherence: seq![],
            payload,
            aliases: seq![],
            raw: bytes,
        };
        if plan.specified == Some(encoding) {
            StateView { soft, fallback_specified: Some(entry), ..state }
        } else if encoding == "ascii"@ {
            StateView { soft, fallback_ascii: Some(entry), ..state }
        } else {
            StateView { soft, fallback_u8: Some(entry), ..state }
        }
    } else {
        StateView { soft, ..state }
    }
}

/// The one match that answers to the encoding, alone.
pub open spec fn sole(results: Seq<MatchView>, encoding: Seq<char>) -> Seq<MatchView> {
    match encoding_position(results, encoding, 0) {
        Some(i) => seq![results[i]],
        None => seq![],
    }
}

/// An encoding is given up for its mess where the mean mess of its chunks
/// reaches the threshold, or where too many of its chunks were messy.
pub open spec fn given_up(mean: int, gave_up: int, steps: int, threshold: int) -> bool {
    mean >= threshold || gave_up >= gave_up_limit(steps)
}

/// A match ends the probing at once where it is a prioritized encoding with
/// next to no mess, or the encoding of the signature.
pub open spec fn wins_at_once(mean: int, prioritized: bool, marked: bool) -> bool {
    (mean < WINNER_CUTOFF && prioritized) || marked
}

/// What probing one encoding does to the state.
#[verifier::opaque]
pub open spec fn probe_step(
    bytes: Seq<u8>,
    plan: PlanView,
    tables: &Tables,
    state: StateView,
    encoding: Seq<char>,
) -> Outcome {
    if is_skipped(plan, encoding) {
        Outcome::Next(state)
    } else {
        match precheck(bytes, plan, encoding) {
            Err(_) => Outcome::Next(state),
            Ok(text) => {
                let payload = if is_lazy(plan, encoding) {
                    None
                } else {
                    Some(text)
                };
                let report = chunks_read(bytes, plan, tables, encoding, payload, plan.steps);
                let mean = mean_mess(report.ratios);
                if similar_to_failed(encoding, state.soft, tables) {
                    Outcome::Next(state)
                } else if !report.failed && tail_fails(bytes, plan, encoding) {
                    Outcome::Next(state)
                } else if given_up(mean, report.gave_up, plan.steps, plan.threshold) {
                    Outcome::Next(soft_failed(state, bytes, plan, encoding, payload, report.failed))
                } else {
                    let found = MatchView {
                        encoding,
                        mess: mean,
                        bom: has_mark(plan, encoding),
                        coherence: coherence_for(encoding, report.chunks, plan, tables),
                        payload,
                        aliases: seq![],
                        raw: bytes,
                    };
                    let results = appended(state.results, found);
                    if wins_at_once(
                        mean,
                        plan.prioritized.contains(encoding),
                        has_mark(plan, encoding),
                    ) {
                        Outcome::Done(sole(results, encoding))
                    } else {
                        Outcome::Next(StateView { results, ..state })
                    }
                }
            },
        }
    }
}

/// The fallback that is taken where no encoding fits: the declared one, else
/// `utf-8` unless it reads the same as `ascii`, else `ascii`.
pub open spec fn fallback_choice(state: StateView) -> Option<MatchView> {
    if state.fallback_specified is Some {
        state.fallback_specified
    } else if state.fallback_u8 is Some && (state.fallback_ascii is None
        || state.fallback_u8->0.fingerprint() != state.fallback_ascii->0.fingerprint()) {
        state.fallback_u8
    } else {
        state.fallback_ascii
    }
}

/// The matches at the end of the probing: those found, or the fallback alone
/// where none was found.
pub open spec fn finalized(state: StateView) -> Seq<MatchView> {
    if state.results.len() > 0 {
        state.results
    } else {
        match fallback_choice(state) {
            Some(fallback) => appended(state.results, fallback),
            None => state.results,
        }
    }
}

/// The matches that the probing yields from the `i`-th encoding of the order
/// on.
pub open spec fn probe_from(
    bytes: Seq<u8>,
    plan: PlanView,
    tables: &Tables,
    order: Seq<Seq<char>>,
    state: StateView,
    i: int,
) -> Seq<MatchView>
    decreases order.len() - i,
{
    if i < 0 || i >= order.len() {
        finalized(state)
    } else {
        match probe_step(bytes, plan, tables, state, order[i]) {
            Outcome::Done(found) => found,
            Outcome::Next(next) => probe_from(bytes, plan, tables, order, next, i + 1),
        }
    }
}

/// The state before the first encoding.
pub open spec fn initial_state() -> StateView {
    StateView {
        soft: seq![],
        fallback_specified: None,
        fallback_ascii: None,
        fallback_u8: None,
        results: seq![],
    }
}

/// The match for an empty payload.
pub open spec fn empty_match() -> MatchView {
    MatchView {
        encoding: "utf-8"@,
        mess: 0,
        bom: false,
        coherence: seq![],
        payload: None,
        aliases: seq![],
        raw: seq![],
    }
}

/// The matches for a payload under the settings: for an empty payload the
/// one match `utf-8`, else what the probing of all encodings yields.
pub open spec fn from_bytes_spec(bytes: Seq<u8>, settings: SettingsView, tables: &Tables) -> Seq<
    MatchView,
> {
    if bytes.len() == 0 {
        seq![empty_match()]
    } else {
        let plan = plan_of(bytes, settings, tables);
        probe_from(
            bytes,
            plan,
            tables,
            probe_order(views(tables.iana_supported@), plan.prioritized),
            initial_state(),
            0,
        )
    }
}

/// The settings that are taken where the caller gives none.
pub open spec fn default_settings() -> SettingsView {
    SettingsView {
        steps: 5,
        chunk_size: 512,
        threshold: 20_000,
        language_threshold: 10_000,
        preemptive: true,
        fallback: true,
        included: seq![],
        excluded: seq![],
    }
}

/// What the prober knows between two encodings, as it holds it.
pub struct ProbeState {
    pub soft_failure: Vec<String>,
    pub fallback_specified: Option<CharsetMatch>,
    pub fallback_ascii: Option<CharsetMatch>,
    pub fallback_u8: Option<CharsetMatch>,
    pub results: CharsetMatches,
}

/// The view of a match that may be absent.
pub open spec fn option_view(item: Option<CharsetMatch>) -> Option<MatchView> {
    match item {
        Some(found) => Some(found@),
        None => None,
    }
}

impl View for ProbeState {
    type V = StateView;

    open spec fn view(&self) -> StateView {
        StateView {
            soft: views(self.soft_failure@),
            fallback_specified: option_view(self.fallback_specified),
            fallback_ascii: option_view(self.fallback_ascii),
            fallback_u8: option_view(self.fallback_u8),
            results: self.results@,
        }
    }
}

/// The mean of the ratios, rounded down.
pub fn mean_of(ratios: &Vec<u32>) -> (r: u32)
    requires
        forall|i: int| 0 <= i < ratios@.len() ==> ratios@[i] <= RATIO_ONE,
    ensures
        r == mean_mess(ratio_views(ratios@)),
        r <= RATIO_ONE,
{
    if ratios.len() == 0 {
        return 0;
    }
    let mut sum: u128 = 0;
    let mut i: usize = 0;
    while i < ratios.len()
        invariant
            i <= ratios.len(),
            forall|k: int| 0 <= k < ratios@.len() ==> ratios@[k] <= RATIO_ONE,
            sum == sum_upto(ratio_views(ratios@), i as int),
            sum <= i * RATIO_ONE,
        decreases ratios.len() - i,
    {
        assert(ratio_views(ratios@)[i as int] == ratios@[i as int]);
        sum = sum + ratios[i] as u128;
        i += 1;
    }
    let count = ratios.len() as u128;
    assert(sum as int / count as int <= RATIO_ONE) by (nonlinear_arith)
        requires
            sum <= count * RATIO_ONE,
            count >= 1,
    ;
    (sum / count) as u32
}

/// Whether the encoding is similar to one that was given up for its mess.
pub fn is_similar_to_failed(encoding: &str, soft_failure: &Vec<String>, tables: &Tables) -> (r: bool)
    ensures
        r == similar_to_failed(encoding@, views(soft_failure@), tables),
{
    let mut i: usize = 0;
    while i < soft_failure.len()
        invariant
            i <= soft_failure.len(),
            forall|k: int|
                0 <= k < i ==> !is_cp_similar_spec(
                    encoding@,
                    #[trigger] views(soft_failure@)[k],
                    tables.similar@,
                ),
        decreases soft_failure.len() - i,
    {
        assert(views(soft_failure@)[i as int] == soft_failure@[i as int]@);
        if is_cp_similar(encoding, soft_failure[i].as_str(), tables) {
            return true;
        }
        i += 1;
    }
    false
}

/// Whether the rest of a lazily decoded payload fails the encoding.
pub fn tail_check_fails(bytes: &[u8], plan: &Plan, encoding: &str) -> (r: bool)
    ensures
        r == tail_fails(bytes@, plan@, encoding@),
{
    if !(plan.too_large && !is_multi_byte_encoding(encoding)) {
        return false;
    }
    let from = if MAX_PROCESSED_BYTES < bytes.len() {
        MAX_PROCESSED_BYTES
    } else {
        bytes.len()
    };
    let rest = match decode(
        slice_subrange(bytes, from, bytes.len()),
        encoding,
        DecoderTrap::Strict,
        false,
        false,
    ) {
        Ok(text) => Ok(chars_of(text.as_str())),
        Err(cause) => Err(cause),
    };
    is_unfit(&rest, encoding)
}

/// Weighs the coherence of the chunks of an encoding and merges it.
pub fn coherence_of_chunks(
    chunks: &Vec<Vec<char>>,
    plan: &Plan,
    encoding: &str,
    tables: &Tables,
    classifier: &mut Classifier,
) -> (r: CoherenceMatches)
    requires
        old(classifier).wf(tables),
    ensures
        final(classifier).wf(tables),
        coherence_views(r@) == coherence_for(encoding@, word_views(chunks@), plan@, tables),
{
    let mut cd_ratios: Vec<CoherenceMatches> = Vec::new();
    assert(list_views(cd_ratios@) =~= seq![]);
    if !str_eq(encoding, "ascii") {
        let hinted = if is_multi_byte_encoding(encoding) {
            mb_encoding_languages(encoding, tables)
        } else {
            encoding_languages(encoding, tables)
        };
        let target_languages = if hinted.len() == 0 {
            None
        } else {
            Some(hinted)
        };
        let ghost targets = targets_for(encoding@, tables);
        let mut i: usize = 0;
        while i < chunks.len()
            invariant
                i <= chunks.len(),
                classifier.wf(tables),
                targets == targets_for(encoding@, tables),
                targets == crate::cd::target_views(target_languages),
                list_views(cd_ratios@) == chunk_coherence(
                    word_views(chunks@),
                    i as int,
                    plan@,
                    targets,
                    tables,
                ),
            decreases chunks.len() - i,
        {
            assert(word_views(chunks@)[i as int] == chunks@[i as int]@);
            let found = coherence_ratio_chars(
                chunks[i].as_slice(),
                Some(plan.language_threshold),
                &target_languages,
                tables,
                classifier,
            );
            let ghost before = list_views(cd_ratios@);
            cd_ratios.push(found);
            assert(list_views(cd_ratios@) =~= before.push(coherence_views(found@)));
            i += 1;
        }
    }
    merge_coherence_ratios(&cd_ratios)
}

/// The text of an optional string.
fn text_of(payload: &Option<String>) -> (r: Option<&str>)
    ensures
        r is Some == payload is Some,
        r matches Some(text) ==> text@ == payload->0@,
{
    match payload {
        Some(text) => Some(text.as_str()),
        None => None,
    }
}

/// Records that an encoding was given up for its mess.
pub fn record_soft_failure(
    state: &mut ProbeState,
    bytes: &[u8],
    plan: &Plan,
    encoding: &str,
    decoded_payload: &Option<String>,
    failed: bool,
)
    requires
        old(state).results.wf(),
    ensures
        final(state).results.wf(),
        final(state)@ == soft_failed(
            old(state)@,
            bytes@,
            plan@,
            encoding@,
            match *decoded_payload {
                Some(text) => Some(text@),
                None => None,
            },
            failed,
        ),
{
    let ghost soft = views(state.soft_failure@);
    state.soft_failure.push(encoding.to_owned());
    assert(views(state.soft_failure@) =~= soft.push(encoding@));
    if plan.enable_fallback && !failed && list_contains(plan.prioritized.as_slice(), encoding) {
        let none: CoherenceMatches = Vec::new();
        assert(coherence_views(none@) =~= seq![]);
        let fallback_entry = Some(
            CharsetMatch::new(bytes, encoding, plan.threshold, false, &none, text_of(decoded_payload)),
        );
        let is_specified = match &plan.specified {
            Some(name) => str_eq(name.as_str(), encoding),
            None => false,
        };
        if is_specified {
            state.fallback_specified = fallback_entry;
        } else if str_eq(encoding, "ascii") {
            state.fallback_ascii = fallback_entry;
        } else {
            state.fallback_u8 = fallback_entry;
        }
    }
}

/// Whether an encoding is given up for its mess.
pub fn is_given_up(mean: u32, gave_up: usize, steps: usize, threshold: u32) -> (r: bool)
    ensures
        r == given_up(mean as int, gave_up as int, steps as int, threshold as int),
{
    mean >= threshold || gave_up >= max_chunk_gave_up(steps)
}

/// Whether a match ends the probing at once.
pub fn is_winner(mean: u32, prioritized: bool, marked: bool) -> (r: bool)
    ensures
        r == wins_at_once(mean as int, prioritized, marked),
{
    (mean < WINNER_CUTOFF && prioritized) || marked
}

/// Probes one encoding: decodes the payload with it, reads its chunks, and
/// records it as a match, as given up, or not at all. The result is the set of
/// matches where the probing ends with this encoding.
pub fn probe(
    bytes: &[u8],
    plan: &Plan,
    tables: &Tables,
    state: &mut ProbeState,
    encoding_iana: &str,
    classifier: &mut Classifier,
) -> (r: Option<CharsetMatches>)
    requires
        plan.steps >= 1,
        plan.sig_len <= bytes@.len(),
        old(state).results.wf(),
        old(classifier).wf(tables),
    ensures
        final(classifier).wf(tables),
        match probe_step(bytes@, plan@, tables, old(state)@, encoding_iana@) {
            Outcome::Next(next) => r is None && final(state)@ == next && final(state).results.wf(),
            Outcome::Done(found) => r matches Some(matches) && matches@ == found && matches.wf(),
        },
{
    reveal(probe_step);
    if plan.included.len() > 0 && !list_contains(plan.included.as_slice(), encoding_iana) {
        return None;
    }
    if list_contains(plan.excluded.as_slice(), encoding_iana) {
        return None;
    }
    let bom_or_sig_available = match &plan.sig_encoding {
        Some(name) => str_eq(name.as_str(), encoding_iana),
        None => false,
    };
    let strip_sig_or_bom = bom_or_sig_available && should_strip_sig_or_bom(encoding_iana);
    let is_multi_byte_decoder = is_multi_byte_encoding(encoding_iana);
    // These cannot be told from noise without a byte-order mark.
    if !bom_or_sig_available && (str_eq(encoding_iana, "utf-16le") || str_eq(
        encoding_iana,
        "utf-16be",
    ) || str_eq(encoding_iana, "utf-32le") || str_eq(encoding_iana, "utf-32be")) {
        return None;
    }
    // The fast check: does the payload decode at all?
    let lazy = plan.too_large && !is_multi_byte_decoder;
    let end = if lazy && MAX_PROCESSED_BYTES < bytes.len() {
        MAX_PROCESSED_BYTES
    } else {
        bytes.len()
    };
    let start = if strip_sig_or_bom {
        if plan.sig_len < end {
            plan.sig_len
        } else {
            end
        }
    } else {
        0
    };
    let decoded_payload: Option<String> = match decode(
        slice_subrange(bytes, start, end),
        encoding_iana,
        DecoderTrap::Strict,
        lazy,
        false,
    ) {
        Ok(text) => if lazy {
            None
        } else {
            Some(text)
        },
        Err(_) => { return None; },
    };
    // An encoding that is similar to one given up would fare no better.
    if is_similar_to_failed(encoding_iana, &state.soft_failure, tables) {
        return None;
    }
    let payload_chars: Option<Vec<char>> = match &decoded_payload {
        Some(text) => Some(chars_of(text.as_str())),
        None => None,
    };
    let reading = read_chunks(bytes, plan, tables, encoding_iana, &payload_chars, classifier);
    // The rest of a large payload is checked only if the chunks passed.
    if !reading.failed && tail_check_fails(bytes, plan, encoding_iana) {
        return None;
    }
    let mean_mess_ratio = mean_of(&reading.ratios);
    if is_given_up(mean_mess_ratio, reading.gave_up, plan.steps, plan.threshold) {
        record_soft_failure(state, bytes, plan, encoding_iana, &decoded_payload, reading.failed);
        return None;
    }
    let cd_ratios_merged = coherence_of_chunks(
        &reading.chunks,
        plan,
        encoding_iana,
        tables,
        classifier,
    );
    state.results.append(
        CharsetMatch::new(
            bytes,
            encoding_iana,
            mean_mess_ratio,
            bom_or_sig_available,
            &cd_ratios_merged,
            text_of(&decoded_payload),
        ),
    );
    if is_winner(
        mean_mess_ratio,
        list_contains(plan.prioritized.as_slice(), encoding_iana),
        bom_or_sig_available,
    ) {
        let mut only: Vec<CharsetMatch> = Vec::new();
        match state.results.get_by_name(encoding_iana) {
            Some(found) => {
                only.push(found.clone());
                let winner = CharsetMatches { items: only };
                assert(winner@ =~= seq![found@]);
                return Some(winner);
            },
            None => {
                let winner = CharsetMatches { items: only };
                assert(winner@ =~= seq![]);
                return Some(winner);
            },
        }
    }
    None
}

/// Picks the fallback and returns the final set of matches.
pub fn finalize(state: ProbeState) -> (r: CharsetMatches)
    requires
        state.results.wf(),
    ensures
        r@ == finalized(state@),
        r.wf(),
{
    let mut state = state;
    if state.results.is_empty() {
        let use_u8 = match (&state.fallback_u8, &state.fallback_ascii) {
            (Some(u8_match), Some(ascii_match)) => u8_match.fingerprint()
                != ascii_match.fingerprint(),
            (Some(_), None) => true,
            _ => false,
        };
        if state.fallback_specified.is_some() {
            let fallback = state.fallback_specified.unwrap();
            state.results.append(fallback);
        } else if use_u8 {
            let fallback = state.fallback_u8.unwrap();
            state.results.append(fallback);
        } else if state.fallback_ascii.is_some() {
            let fallback = state.fallback_ascii.unwrap();
            state.results.append(fallback);
        }
    }
    state.results
}

/// Probes the encodings in their order and returns the matches.
pub fn probe_all(bytes: &[u8], plan: &Plan, tables: &Tables) -> (r: CharsetMatches)
    requires
        plan.steps >= 1,
        plan.sig_len <= bytes@.len(),
    ensures
        r.wf(),
        r@ == probe_from(
            bytes@,
            plan@,
            tables,
            probe_order(views(tables.iana_supported@), plan@.prioritized),
            initial_state(),
            0,
        ),
{
    let order = order_encodings(tables, &plan.prioritized);
    let mut classifier = Classifier::new();
    let mut state = ProbeState {
        soft_failure: Vec::new(),
        fallback_specified: None,
        fallback_ascii: None,
        fallback_u8: None,
        results: CharsetMatches::new(None),
    };
    assert(views(state.soft_failure@) =~= seq![]);
    assert(state@ == initial_state());
    let ghost target = probe_from(bytes@, plan@, tables, views(order@), initial_state(), 0);
    let mut i: usize = 0;
    while i < order.len()
        invariant
            i <= order.len(),
            plan.steps >= 1,
            plan.sig_len <= bytes@.len(),
            state.results.wf(),
            classifier.wf(tables),
            views(order@) == probe_order(views(tables.iana_supported@), plan@.prioritized),
            target == probe_from(bytes@, plan@, tables, views(order@), initial_state(), 0),
            target == probe_from(bytes@, plan@, tables, views(order@), state@, i as int),
        decreases order.len() - i,
    {
        assert(views(order@)[i as int] == order@[i as int]@);
        match probe(bytes, plan, tables, &mut state, order[i].as_str(), &mut classifier) {
            Some(found) => {
                return found;
            },
            None => {},
        }
        i += 1;
    }
    finalize(state)
}

} // verus!
