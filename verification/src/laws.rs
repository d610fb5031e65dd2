//! What holds of every detection, proved over the definitions of the prober.

use crate::assets::{LanguageEntry, Tables};
use crate::cd::{
    coherence_ratio_spec,
    flat_upto,
    matches_in_order,
    mean_scores,
    merge_spec,
    qualified,
    score_tally,
    scores_descend,
    scores_within,
};
use crate::entity::{appended, encoding_position, fingerprint_position, MatchView};
use crate::md::{early_stop, mess_ratio_spec, EARLY_STOP_MARGIN};
use crate::prober::{
    chunk_coherence,
    chunk_text,
    chunks_read,
    coherence_for,
    fallback_choice,
    first_offset,
    from_bytes_spec,
    given_up,
    halted,
    has_mark,
    initial_state,
    is_lazy,
    is_skipped,
    mean_mess,
    moved_to_front,
    order_after,
    plan_of,
    precheck,
    probe_from,
    probe_order,
    probe_step,
    sequence_length,
    stride,
    targets_for,
    Outcome,
    PlanView,
    SettingsView,
    StateView,
};
use crate::rank::{lemma_ranked_is_ranking, ranked};
use crate::ratio::{lemma_ratio_bounds, RATIO_ONE};
use crate::text::{name_position, views};
use crate::utils::iana_name_spec;
use vstd::prelude::*;

verus! {

/// What a detection is held against: the threshold of the mess, the least
/// score of a language, and the names of the supported encodings.
pub struct Bounds {
    pub threshold: int,
    pub floor: int,
    pub known: Seq<Seq<char>>,
}

/// The match stands for an encoding that was probed and not given up: its
/// mess is below the threshold, its names are known, and the scores of its
/// languages are not below the floor.
pub open spec fn is_proper(found: MatchView, bounds: Bounds) -> bool {
    &&& found.mess < bounds.threshold
    &&& bounds.known.contains(found.encoding)
    &&& forall|k: int|
        0 <= k < found.aliases.len() ==> bounds.known.contains(#[trigger] found.aliases[k])
    &&& bounds.floor >= 0 ==> scores_within(found.coherence, bounds.floor)
}

/// The match is a fallback: its mess is the threshold itself, it has neither
/// aliases nor languages, and its encoding is known.
pub open spec fn is_fallback(found: MatchView, bounds: Bounds) -> bool {
    &&& found.mess == bounds.threshold
    &&& bounds.known.contains(found.encoding)
    &&& found.aliases.len() == 0
    &&& found.coherence.len() == 0
}

/// Every match of the list is proper.
pub open spec fn all_proper(items: Seq<MatchView>, bounds: Bounds) -> bool {
    forall|i: int| 0 <= i < items.len() ==> is_proper(#[trigger] items[i], bounds)
}

/// A fallback that is there is a fallback.
pub open spec fn fallback_ok(item: Option<MatchView>, bounds: Bounds) -> bool {
    match item {
        Some(found) => is_fallback(found, bounds),
        None => true,
    }
}

/// What holds of the state between two encodings.
pub open spec fn state_ok(state: StateView, bounds: Bounds) -> bool {
    &&& all_proper(state.results, bounds)
    &&& fallback_ok(state.fallback_specified, bounds)
    &&& fallback_ok(state.fallback_ascii, bounds)
    &&& fallback_ok(state.fallback_u8, bounds)
}

/// What holds of the matches that a detection returns: they are all proper,
/// or there is one alone, which is a fallback.
pub open spec fn outcome_ok(items: Seq<MatchView>, bounds: Bounds) -> bool {
    ||| all_proper(items, bounds)
    ||| (items.len() == 1 && is_fallback(items[0], bounds))
}

/// The bounds of a detection under a plan.
pub open spec fn bounds_of(plan: PlanView, tables: &Tables) -> Bounds {
    Bounds {
        threshold: plan.threshold,
        floor: plan.language_threshold,
        known: views(tables.iana_supported@),
    }
}

/// A place that was found lies within the list.
proof fn lemma_fingerprint_found(items: Seq<MatchView>, fingerprint: u64, from: int)
    requires
        0 <= from,
    ensures
        fingerprint_position(items, fingerprint, from) matches Some(i) ==> from <= i < items.len(),
    decreases items.len() - from,
{
    if from < items.len() && items[from].fingerprint() != fingerprint {
        lemma_fingerprint_found(items, fingerprint, from + 1);
    }
}

/// A place that was found lies within the list.
proof fn lemma_encoding_found(items: Seq<MatchView>, name: Seq<char>, from: int)
    requires
        0 <= from,
    ensures
        encoding_position(items, name, from) matches Some(i) ==> from <= i < items.len(),
    decreases items.len() - from,
{
    if from < items.len() && !items[from].answers_to(name) {
        lemma_encoding_found(items, name, from + 1);
    }
}

/// Appending a proper match to proper matches leaves them proper.
proof fn lemma_appended_proper(items: Seq<MatchView>, item: MatchView, bounds: Bounds)
    requires
        all_proper(items, bounds),
        is_proper(item, bounds),
    ensures
        all_proper(appended(items, item), bounds),
{
    lemma_fingerprint_found(items, item.fingerprint(), 0);
    let after = appended(items, item);
    match fingerprint_position(items, item.fingerprint(), 0) {
        Some(at) => {
            let joined = items[at].merged(item);
            assert forall|k: int| 0 <= k < joined.aliases.len() implies bounds.known.contains(
                #[trigger] joined.aliases[k],
            ) by {
                if k < items[at].aliases.len() {
                    assert(joined.aliases[k] == items[at].aliases[k]);
                } else if k == items[at].aliases.len() {
                    assert(joined.aliases[k] == item.encoding);
                } else {
                    assert(joined.aliases[k] == item.aliases[k - items[at].aliases.len() - 1]);
                }
            }
            assert forall|i: int| 0 <= i < after.len() implies is_proper(
                #[trigger] after[i],
                bounds,
            ) by {
                if i != at {
                    assert(after[i] == items[i]);
                }
            }
        },
        None => {
            assert forall|i: int| 0 <= i < after.len() implies is_proper(
                #[trigger] after[i],
                bounds,
            ) by {
                if i < items.len() {
                    assert(after[i] == items[i]);
                }
            }
        },
    }
}

/// One step of the probing keeps what holds of the state, and ends only with
/// proper matches.
proof fn lemma_probe_step_ok(
    bytes: Seq<u8>,
    plan: PlanView,
    tables: &Tables,
    state: StateView,
    encoding: Seq<char>,
)
    requires
        state_ok(state, bounds_of(plan, tables)),
        views(tables.iana_supported@).contains(encoding),
    ensures
        match probe_step(bytes, plan, tables, state, encoding) {
            Outcome::Next(next) => state_ok(next, bounds_of(plan, tables)),
            Outcome::Done(found) => all_proper(found, bounds_of(plan, tables)),
        },
{
    reveal(probe_step);
    let bounds = bounds_of(plan, tables);
    if !is_skipped(plan, encoding) {
        if let Ok(text) = precheck(bytes, plan, encoding) {
            let payload = if is_lazy(plan, encoding) {
                None
            } else {
                Some(text)
            };
            let report = chunks_read(bytes, plan, tables, encoding, payload, plan.steps);
            let found = MatchView {
                encoding,
                mess: mean_mess(report.ratios),
                bom: has_mark(plan, encoding),
                coherence: coherence_for(encoding, report.chunks, plan, tables),
                payload,
                aliases: seq![],
                raw: bytes,
            };
            if found.mess < plan.threshold {
                if plan.language_threshold >= 0 {
                    lemma_recorded_coherence(encoding, report.chunks, plan, tables);
                }
                lemma_appended_proper(state.results, found, bounds);
                let results = appended(state.results, found);
                lemma_encoding_found(results, encoding, 0);
            }
        }
    }
}

/// The probing from any state of which the invariant holds ends with proper
/// matches, or with one fallback alone.
proof fn lemma_probe_from_ok(
    bytes: Seq<u8>,
    plan: PlanView,
    tables: &Tables,
    order: Seq<Seq<char>>,
    state: StateView,
    i: int,
)
    requires
        0 <= i,
        state_ok(state, bounds_of(plan, tables)),
        forall|k: int|
            0 <= k < order.len() ==> views(tables.iana_supported@).contains(#[trigger] order[k]),
    ensures
        outcome_ok(probe_from(bytes, plan, tables, order, state, i), bounds_of(plan, tables)),
    decreases order.len() - i,
{
    if i >= order.len() {
        if state.results.len() == 0 {
            if let Some(fallback) = fallback_choice(state) {
                assert(appended(state.results, fallback) =~= seq![fallback]);
            }
        }
    } else {
        lemma_probe_step_ok(bytes, plan, tables, state, order[i]);
        match probe_step(bytes, plan, tables, state, order[i]) {
            Outcome::Done(found) => {},
            Outcome::Next(next) => {
                lemma_probe_from_ok(bytes, plan, tables, order, next, i + 1);
            },
        }
    }
}

/// A place that was found lies within the list.
proof fn lemma_name_found(list: Seq<Seq<char>>, name: Seq<char>, from: int)
    requires
        0 <= from,
    ensures
        name_position(list, name, from) matches Some(i) ==> from <= i < list.len(),
    decreases list.len() - from,
{
    if from < list.len() && list[from] != name {
        lemma_name_found(list, name, from + 1);
    }
}

/// Every encoding of the probing order is a supported one.
pub proof fn lemma_order_is_supported(supported: Seq<Seq<char>>, prioritized: Seq<Seq<char>>, k: int)
    ensures
        forall|i: int|
            0 <= i < order_after(supported, prioritized, k).len() ==> supported.contains(
                #[trigger] order_after(supported, prioritized, k)[i],
            ),
    decreases k,
{
    if k > 0 {
        lemma_order_is_supported(supported, prioritized, k - 1);
        let before = order_after(supported, prioritized, k - 1);
        let name = prioritized[prioritized.len() - k];
        lemma_name_found(before, name, 0);
        let after = moved_to_front(before, name);
        match name_position(before, name, 0) {
            Some(at) => {
                assert forall|i: int| 0 <= i < after.len() implies supported.contains(
                    #[trigger] after[i],
                ) by {
                    if i == 0 {
                        assert(after[i] == before[at]);
                    } else if i <= at {
                        assert(after[i] == before[i - 1]);
                    } else {
                        assert(after[i] == before[i]);
                    }
                }
            },
            None => {},
        }
    }
}

/// The bounds of a detection under the settings.
pub open spec fn bounds_under(settings: SettingsView, tables: &Tables) -> Bounds {
    Bounds {
        threshold: settings.threshold,
        floor: settings.language_threshold,
        known: views(tables.iana_supported@),
    }
}

/// The matches of a detection, for a payload that is not empty, are all
/// proper, or there is one fallback alone.
pub proof fn lemma_detection_ok(bytes: Seq<u8>, settings: SettingsView, tables: &Tables)
    requires
        bytes.len() > 0,
    ensures
        outcome_ok(from_bytes_spec(bytes, settings, tables), bounds_under(settings, tables)),
{
    let supported = views(tables.iana_supported@);
    let plan = plan_of(bytes, settings, tables);
    assert(bounds_of(plan, tables) == bounds_under(settings, tables));
    lemma_order_is_supported(supported, plan.prioritized, plan.prioritized.len() as int);
    lemma_probe_from_ok(
        bytes,
        plan,
        tables,
        probe_order(supported, plan.prioritized),
        initial_state(),
        0,
    );
}

/// Every match that a detection returns has a mess below the threshold,
/// unless it is the only match.
pub proof fn lemma_mess_below_threshold_or_alone(
    bytes: Seq<u8>,
    settings: SettingsView,
    tables: &Tables,
)
    ensures
        forall|i: int|
            0 <= i < from_bytes_spec(bytes, settings, tables).len() ==> {
                ||| (#[trigger] from_bytes_spec(bytes, settings, tables)[i]).mess
                    < settings.threshold
                ||| from_bytes_spec(bytes, settings, tables).len() == 1
            },
{
    if bytes.len() > 0 {
        lemma_detection_ok(bytes, settings, tables);
    }
}

/// A match whose mess is not below the threshold, for a payload that is not
/// empty, is a fallback: its mess is the threshold itself, and it has neither
/// aliases nor languages.
pub proof fn lemma_messy_match_is_fallback(bytes: Seq<u8>, settings: SettingsView, tables: &Tables)
    requires
        bytes.len() > 0,
    ensures
        forall|i: int|
            0 <= i < from_bytes_spec(bytes, settings, tables).len() && (
            #[trigger] from_bytes_spec(bytes, settings, tables)[i]).mess >= settings.threshold
                ==> is_fallback(
                from_bytes_spec(bytes, settings, tables)[i],
                bounds_under(settings, tables),
            ),
{
    lemma_detection_ok(bytes, settings, tables);
}

/// For a payload that is not empty, the encoding of every match, and every
/// alias of it, is a supported encoding, and so a canonical name: it resolves
/// to itself.
pub proof fn lemma_encodings_are_canonical(bytes: Seq<u8>, settings: SettingsView, tables: &Tables)
    requires
        bytes.len() > 0,
    ensures
        forall|i: int|
            0 <= i < from_bytes_spec(bytes, settings, tables).len() ==> {
                let found = #[trigger] from_bytes_spec(bytes, settings, tables)[i];
                let supported = views(tables.iana_supported@);
                &&& supported.contains(found.encoding)
                &&& iana_name_spec(found.encoding, supported) == Some(found.encoding)
                &&& forall|k: int|
                    0 <= k < found.aliases.len() ==> iana_name_spec(
                        #[trigger] found.aliases[k],
                        supported,
                    ) == Some(found.aliases[k])
            },
{
    lemma_detection_ok(bytes, settings, tables);
}

/// Every score of a language, in every match of a detection, lies between the
/// language threshold and 1.
pub proof fn lemma_coherence_domain(bytes: Seq<u8>, settings: SettingsView, tables: &Tables)
    requires
        0 <= settings.language_threshold,
    ensures
        forall|i: int|
            0 <= i < from_bytes_spec(bytes, settings, tables).len() ==> scores_within(
                (#[trigger] from_bytes_spec(bytes, settings, tables)[i]).coherence,
                settings.language_threshold,
            ),
{
    if bytes.len() > 0 {
        lemma_detection_ok(bytes, settings, tables);
    }
}

/// A look at the mess stops the reading only where the mess has reached the
/// bound.
pub proof fn lemma_early_stop_at_least(text: Seq<char>, n: int, bound: int, tables: &Tables)
    ensures
        early_stop(text, n, bound, tables) matches Some(mess) ==> mess >= bound,
    decreases n,
{
    if n > 0 {
        lemma_early_stop_at_least(text, n - 1, bound, tables);
    }
}

/// A reading that does not stop early under a bound does not stop early
/// under a higher one.
pub proof fn lemma_early_stop_none_above(
    text: Seq<char>,
    n: int,
    low: int,
    high: int,
    tables: &Tables,
)
    requires
        low <= high,
        early_stop(text, n, low, tables) is None,
    ensures
        early_stop(text, n, high, tables) is None,
    decreases n,
{
    if n > 0 {
        lemma_early_stop_none_above(text, n - 1, low, high, tables);
    }
}

/// A text whose mess is below a threshold has the same mess under any higher
/// threshold: raising the threshold does not turn a text that passes into one
/// that fails.
pub proof fn lemma_mess_stable_above_threshold(
    text: Seq<char>,
    low: int,
    high: int,
    tables: &Tables,
)
    requires
        low <= high,
        mess_ratio_spec(text, low, tables) < low,
    ensures
        mess_ratio_spec(text, high, tables) == mess_ratio_spec(text, low, tables),
{
    let n = text.len() as int;
    lemma_early_stop_at_least(text, n, low + EARLY_STOP_MARGIN, tables);
    if early_stop(text, n, low + EARLY_STOP_MARGIN, tables) is None {
        lemma_early_stop_none_above(
            text,
            n,
            low + EARLY_STOP_MARGIN,
            high + EARLY_STOP_MARGIN,
            tables,
        );
    }
}

/// The count of messy chunks is never negative.
proof fn lemma_gave_up_counts(
    bytes: Seq<u8>,
    plan: PlanView,
    tables: &Tables,
    encoding: Seq<char>,
    payload: Option<Seq<char>>,
    k: int,
)
    ensures
        chunks_read(bytes, plan, tables, encoding, payload, k).gave_up >= 0,
    decreases k,
{
    if k > 0 {
        lemma_gave_up_counts(bytes, plan, tables, encoding, payload, k - 1);
    }
}

/// A reading that is clean after `k` steps was clean after `k - 1`.
proof fn lemma_clean_before(
    bytes: Seq<u8>,
    plan: PlanView,
    tables: &Tables,
    encoding: Seq<char>,
    payload: Option<Seq<char>>,
    k: int,
)
    requires
        k > 0,
        chunks_read(bytes, plan, tables, encoding, payload, k).gave_up == 0,
        !chunks_read(bytes, plan, tables, encoding, payload, k).failed,
    ensures
        chunks_read(bytes, plan, tables, encoding, payload, k - 1).gave_up == 0,
        !chunks_read(bytes, plan, tables, encoding, payload, k - 1).failed,
{
    lemma_gave_up_counts(bytes, plan, tables, encoding, payload, k - 1);
}

/// Two plans that differ in nothing but the threshold.
pub open spec fn same_but_threshold(low: PlanView, high: PlanView) -> bool {
    high == (PlanView { threshold: high.threshold, ..low })
}

/// A reading in which every chunk decoded and none was messy is the same
/// under any higher threshold: the same chunks, with the same mess.
pub proof fn lemma_clean_chunks_stay_clean(
    bytes: Seq<u8>,
    low: PlanView,
    high: PlanView,
    tables: &Tables,
    encoding: Seq<char>,
    payload: Option<Seq<char>>,
    k: int,
)
    requires
        same_but_threshold(low, high),
        low.threshold <= high.threshold,
        chunks_read(bytes, low, tables, encoding, payload, k).gave_up == 0,
        !chunks_read(bytes, low, tables, encoding, payload, k).failed,
    ensures
        chunks_read(bytes, high, tables, encoding, payload, k) == chunks_read(
            bytes,
            low,
            tables,
            encoding,
            payload,
            k,
        ),
    decreases k,
{
    if k > 0 {
        lemma_clean_before(bytes, low, tables, encoding, payload, k);
        let before = chunks_read(bytes, low, tables, encoding, payload, k - 1);
        lemma_clean_chunks_stay_clean(bytes, low, high, tables, encoding, payload, k - 1);
        let seq_len = sequence_length(bytes, payload);
        let offset = first_offset(low, encoding, payload) + (k - 1) * stride(seq_len, low.steps);
        if !(halted(before, low, encoding) || offset >= seq_len) {
            let chunk = chunk_text(bytes, low, encoding, payload, offset);
            assert(chunk == chunk_text(bytes, high, encoding, payload, offset));
            if let Ok(text) = chunk {
                if mess_ratio_spec(text, low.threshold, tables) < low.threshold {
                    lemma_mess_stable_above_threshold(text, low.threshold, high.threshold, tables);
                }
            }
        }
    }
}

/// An encoding whose chunks all decoded, none of them messy, and which was
/// not given up under a threshold, is not given up under any higher
/// threshold, and keeps its mean mess.
pub proof fn lemma_clean_encoding_stays_accepted(
    bytes: Seq<u8>,
    low: PlanView,
    high: PlanView,
    tables: &Tables,
    encoding: Seq<char>,
    payload: Option<Seq<char>>,
)
    requires
        same_but_threshold(low, high),
        low.threshold <= high.threshold,
        chunks_read(bytes, low, tables, encoding, payload, low.steps).gave_up == 0,
        !chunks_read(bytes, low, tables, encoding, payload, low.steps).failed,
        !given_up(
            mean_mess(chunks_read(bytes, low, tables, encoding, payload, low.steps).ratios),
            0,
            low.steps,
            low.threshold,
        ),
    ensures
        chunks_read(bytes, high, tables, encoding, payload, high.steps) == chunks_read(
            bytes,
            low,
            tables,
            encoding,
            payload,
            low.steps,
        ),
        !given_up(
            mean_mess(chunks_read(bytes, high, tables, encoding, payload, high.steps).ratios),
            chunks_read(bytes, high, tables, encoding, payload, high.steps).gave_up,
            high.steps,
            high.threshold,
        ),
{
    lemma_clean_chunks_stay_clean(bytes, low, high, tables, encoding, payload, low.steps);
}

/// What stands at each place of a ranking of names by their scores.
pub proof fn lemma_matches_in_order(
    names: Seq<Seq<char>>,
    scores: Seq<usize>,
    order: Seq<int>,
    n: int,
)
    requires
        0 <= n <= order.len(),
    ensures
        matches_in_order(names, scores, order, n).len() == n,
        forall|i: int|
            0 <= i < n ==> #[trigger] matches_in_order(names, scores, order, n)[i] == (
                names[order[i]],
                scores[order[i]] as int,
            ),
    decreases n,
{
    if n > 0 {
        lemma_matches_in_order(names, scores, order, n - 1);
    }
}

/// The scores of the languages that qualify lie between the threshold and 1.
proof fn lemma_qualified(
    profile: Seq<char>,
    languages: Seq<LanguageEntry>,
    targets: Option<Seq<Seq<char>>>,
    threshold: int,
    n: int,
)
    ensures
        qualified(profile, languages, targets, threshold, n).0.len() == qualified(
            profile,
            languages,
            targets,
            threshold,
            n,
        ).1.len(),
        forall|k: int|
            0 <= k < qualified(profile, languages, targets, threshold, n).1.len() ==> threshold
                <= #[trigger] qualified(profile, languages, targets, threshold, n).1[k]
                <= RATIO_ONE,
    decreases n,
{
    if n > 0 {
        lemma_qualified(profile, languages, targets, threshold, n - 1);
        let reference = languages[n - 1].alphabet@;
        let k = reference.len() as int;
        let observed = if profile.len() < k {
            profile.len() as int
        } else {
            k
        };
        lemma_ratio_bounds(crate::cd::hits(profile, reference, observed), k);
    }
}

/// Every score of the coherence of a text lies between the threshold and 1,
/// and the scores never rise along the list.
pub proof fn lemma_coherence_scores(
    text: Seq<char>,
    threshold: int,
    targets: Option<Seq<Seq<char>>>,
    tables: &Tables,
)
    ensures
        scores_within(coherence_ratio_spec(text, threshold, targets, tables), threshold),
        scores_descend(coherence_ratio_spec(text, threshold, targets, tables)),
{
    let profile = crate::cd::profile_of(crate::cd::alphabet_of(text, text.len() as int, tables));
    let n = tables.languages@.len() as int;
    lemma_qualified(profile, tables.languages@, targets, threshold, n);
    let (names, scores) = qualified(profile, tables.languages@, targets, threshold, n);
    lemma_ranked_is_ranking(scores, scores.len() as int);
    let order = ranked(scores, scores.len() as int);
    lemma_matches_in_order(names, scores, order, scores.len() as int);
}

/// Lists within bounds, put one behind the other, are within bounds.
proof fn lemma_flat_within(lists: Seq<Seq<(Seq<char>, int)>>, n: int, threshold: int)
    requires
        0 <= n <= lists.len(),
        forall|i: int| 0 <= i < lists.len() ==> scores_within(#[trigger] lists[i], threshold),
    ensures
        scores_within(flat_upto(lists, n), threshold),
    decreases n,
{
    if n > 0 {
        lemma_flat_within(lists, n - 1, threshold);
        let before = flat_upto(lists, n - 1);
        let after = flat_upto(lists, n);
        assert forall|i: int| 0 <= i < after.len() implies threshold <= (#[trigger] after[i]).1
            <= RATIO_ONE by {
            if i < before.len() {
                assert(after[i] == before[i]);
            } else {
                assert(after[i] == lists[n - 1][i - before.len()]);
            }
        }
    }
}

/// The sums of a tally lie between the threshold and 1, each taken as often
/// as its count says.
pub open spec fn tally_within(sums: Seq<int>, counts: Seq<int>, threshold: int) -> bool {
    &&& sums.len() == counts.len()
    &&& forall|k: int|
        0 <= k < sums.len() ==> {
            &&& (#[trigger] counts[k]) >= 1
            &&& counts[k] * threshold <= sums[k] <= counts[k] * RATIO_ONE
        }
}

/// A tally of scores within bounds is within bounds.
proof fn lemma_score_tally(flat: Seq<(Seq<char>, int)>, n: int, threshold: int)
    requires
        0 <= n <= flat.len(),
        scores_within(flat, threshold),
    ensures
        score_tally(flat, n).0.len() == score_tally(flat, n).1.len(),
        tally_within(score_tally(flat, n).1, score_tally(flat, n).2, threshold),
    decreases n,
{
    if n > 0 {
        lemma_score_tally(flat, n - 1, threshold);
        let (names, sums, counts) = score_tally(flat, n - 1);
        let (name, score) = flat[n - 1];
        assert(threshold <= flat[n - 1].1 <= RATIO_ONE);
        lemma_name_found(names, name, 0);
        match name_position(names, name, 0) {
            Some(at) => {
                let new_sums = sums.update(at, sums[at] + score);
                let new_counts = counts.update(at, counts[at] + 1);
                assert forall|k: int| 0 <= k < new_sums.len() implies {
                    &&& (#[trigger] new_counts[k]) >= 1
                    &&& new_counts[k] * threshold <= new_sums[k] <= new_counts[k] * RATIO_ONE
                } by {
                    if k == at {
                        assert(counts[at] >= 1);
                        assert((counts[at] + 1) * threshold == counts[at] * threshold + threshold)
                            by (nonlinear_arith);
                        assert((counts[at] + 1) * RATIO_ONE == counts[at] * RATIO_ONE + RATIO_ONE)
                            by (nonlinear_arith);
                    } else {
                        assert(counts[k] >= 1);
                    }
                }
            },
            None => {
                let new_sums = sums.push(score);
                let new_counts = counts.push(1);
                assert forall|k: int| 0 <= k < new_sums.len() implies {
                    &&& (#[trigger] new_counts[k]) >= 1
                    &&& new_counts[k] * threshold <= new_sums[k] <= new_counts[k] * RATIO_ONE
                } by {
                    if k < sums.len() {
                        assert(counts[k] >= 1);
                    }
                }
            },
        }
    }
}

/// The means of a tally within bounds lie between the threshold and 1.
proof fn lemma_mean_scores(sums: Seq<int>, counts: Seq<int>, n: int, threshold: int)
    requires
        0 <= n <= sums.len(),
        0 <= threshold,
        tally_within(sums, counts, threshold),
    ensures
        mean_scores(sums, counts, n).len() == n,
        forall|k: int|
            0 <= k < n ==> threshold <= #[trigger] mean_scores(sums, counts, n)[k] <= RATIO_ONE,
    decreases n,
{
    if n > 0 {
        lemma_mean_scores(sums, counts, n - 1, threshold);
        let sum = sums[n - 1];
        let count = counts[n - 1];
        assert(count >= 1);
        assert(threshold <= sum / count <= RATIO_ONE) by (nonlinear_arith)
            requires
                count >= 1,
                count * threshold <= sum <= count * RATIO_ONE,
        ;
    }
}

/// The merged coherence of several lists whose scores lie between a threshold
/// and 1 has scores between the threshold and 1, and they never rise along
/// the list.
pub proof fn lemma_merge_scores(lists: Seq<Seq<(Seq<char>, int)>>, threshold: int)
    requires
        0 <= threshold,
        forall|i: int| 0 <= i < lists.len() ==> scores_within(#[trigger] lists[i], threshold),
    ensures
        scores_within(merge_spec(lists), threshold),
        scores_descend(merge_spec(lists)),
{
    let flat = flat_upto(lists, lists.len() as int);
    lemma_flat_within(lists, lists.len() as int, threshold);
    lemma_score_tally(flat, flat.len() as int, threshold);
    let (names, sums, counts) = score_tally(flat, flat.len() as int);
    lemma_mean_scores(sums, counts, names.len() as int, threshold);
    let means = mean_scores(sums, counts, names.len() as int);
    lemma_ranked_is_ranking(means, means.len() as int);
    lemma_matches_in_order(names, means, ranked(means, means.len() as int), means.len() as int);
}

/// The coherence of every chunk has scores between the language threshold
/// and 1.
proof fn lemma_chunk_coherence(
    chunks: Seq<Seq<char>>,
    n: int,
    plan: PlanView,
    targets: Option<Seq<Seq<char>>>,
    tables: &Tables,
)
    requires
        n <= chunks.len(),
    ensures
        forall|i: int|
            0 <= i < chunk_coherence(chunks, n, plan, targets, tables).len() ==> scores_within(
                #[trigger] chunk_coherence(chunks, n, plan, targets, tables)[i],
                plan.language_threshold,
            ),
    decreases n,
{
    if n > 0 {
        lemma_chunk_coherence(chunks, n - 1, plan, targets, tables);
        lemma_coherence_scores(chunks[n - 1], plan.language_threshold, targets, tables);
        let before = chunk_coherence(chunks, n - 1, plan, targets, tables);
        let after = chunk_coherence(chunks, n, plan, targets, tables);
        assert forall|i: int| 0 <= i < after.len() implies scores_within(
            #[trigger] after[i],
            plan.language_threshold,
        ) by {
            if i < before.len() {
                assert(after[i] == before[i]);
            }
        }
    }
}

/// The coherence that is recorded for an encoding has scores between the
/// language threshold and 1.
pub proof fn lemma_recorded_coherence(
    encoding: Seq<char>,
    chunks: Seq<Seq<char>>,
    plan: PlanView,
    tables: &Tables,
)
    requires
        0 <= plan.language_threshold,
    ensures
        scores_within(coherence_for(encoding, chunks, plan, tables), plan.language_threshold),
        scores_descend(coherence_for(encoding, chunks, plan, tables)),
{
    let lists = if encoding == "ascii"@ {
        seq![]
    } else {
        chunk_coherence(chunks, chunks.len() as int, plan, targets_for(encoding, tables), tables)
    };
    lemma_chunk_coherence(
        chunks,
        chunks.len() as int,
        plan,
        targets_for(encoding, tables),
        tables,
    );
    lemma_merge_scores(lists, plan.language_threshold);
}

} // verus!
