//! The coherence engine: which languages a decoded text may be written in.
//!
//! The letters of the text, ranked by how often they occur, are held against
//! the letters of each language. The score of a language is the share of the
//! text's leading letters that the language uses.

use crate::assets::{EncodingLanguages, LanguageEntry, Tables};
use crate::cache::Classifier;
use crate::entity::{clone_names, coherence_views, CoherenceMatch, CoherenceMatches};
use crate::rank::{index_views, is_ranking, rank_descending, ranked};
use crate::ratio::{ratio_of, ratio_spec, RATIO_ONE};
use crate::text::{chars_of, find_name, list_contains, name_position, str_eq, views};
use crate::unicode::{lowercased, to_lowercase, whitespace};
use crate::chars::{is_symbol_spec, remove_accent, remove_accent_spec};
use vstd::prelude::*;

verus! {

/// The threshold that is taken where the caller names none: one tenth.
pub const DEFAULT_LANGUAGE_THRESHOLD: u32 = 10_000;

/// An ASCII digit.
pub open spec fn is_ascii_digit_spec(c: char) -> bool {
    0x30 <= c as u32 <= 0x39
}

/// A character that counts as a letter of the text: no ASCII digit, no white
/// space and no symbol.
pub open spec fn is_counted(c: char, tables: &Tables) -> bool {
    !is_ascii_digit_spec(c) && !whitespace(c) && !is_symbol_spec(c, tables.ranges@)
}

/// The first `n` characters of a lowercase mapping, each without its accent.
pub open spec fn plain_letters(lower: Seq<char>, n: int) -> Seq<char>
    decreases n,
{
    if n <= 0 {
        seq![]
    } else {
        plain_letters(lower, n - 1).push(remove_accent_spec(lower[n - 1]))
    }
}

/// The letters of the first `n` characters of a text: digits, white space and
/// symbols left out, the rest in lower case and without accents.
pub open spec fn alphabet_of(text: Seq<char>, n: int, tables: &Tables) -> Seq<char>
    decreases n,
{
    if n <= 0 {
        seq![]
    } else if is_counted(text[n - 1], tables) {
        alphabet_of(text, n - 1, tables) + plain_letters(
            lowercased(text[n - 1]),
            lowercased(text[n - 1]).len() as int,
        )
    } else {
        alphabet_of(text, n - 1, tables)
    }
}

/// Where `c` stands in `letters`, at or behind `from`.
pub open spec fn position_of(letters: Seq<char>, c: char, from: int) -> Option<int>
    decreases letters.len() - from,
{
    if from < 0 || from >= letters.len() {
        None
    } else if letters[from] == c {
        Some(from)
    } else {
        position_of(letters, c, from + 1)
    }
}

/// The distinct letters among the first `n` of an alphabet, in the order in
/// which they first occur, each with the number of times it occurs.
pub open spec fn tally(alphabet: Seq<char>, n: int) -> (Seq<char>, Seq<usize>)
    decreases n,
{
    if n <= 0 {
        (seq![], seq![])
    } else {
        let (letters, counts) = tally(alphabet, n - 1);
        match position_of(letters, alphabet[n - 1], 0) {
            Some(k) => (letters, counts.update(k, (counts[k] + 1) as usize)),
            None => (letters.push(alphabet[n - 1]), counts.push(1)),
        }
    }
}

/// The letters at the first `n` places of a ranking.
pub open spec fn letters_in_order(letters: Seq<char>, order: Seq<int>, n: int) -> Seq<char>
    decreases n,
{
    if n <= 0 {
        seq![]
    } else {
        letters_in_order(letters, order, n - 1).push(letters[order[n - 1]])
    }
}

/// The profile of an alphabet: its distinct letters, the most frequent first,
/// and of two equally frequent ones the one that occurs first.
pub open spec fn profile_of(alphabet: Seq<char>) -> Seq<char> {
    let (letters, counts) = tally(alphabet, alphabet.len() as int);
    letters_in_order(letters, ranked(counts, counts.len() as int), counts.len() as int)
}

/// How many of the first `n` letters of a profile the reference holds.
pub open spec fn hits(profile: Seq<char>, reference: Seq<char>, n: int) -> int
    decreases n,
{
    if n <= 0 {
        0
    } else {
        hits(profile, reference, n - 1) + if reference.contains(profile[n - 1]) {
            1int
        } else {
            0int
        }
    }
}

/// The score of a language: of the leading letters of the profile, as many as
/// the language has letters, the share that the language uses.
pub open spec fn language_score(profile: Seq<char>, reference: Seq<char>) -> int {
    let k = reference.len() as int;
    let observed = if profile.len() < k {
        profile.len() as int
    } else {
        k
    };
    ratio_spec(hits(profile, reference, observed), k)
}

/// Whether a language is a candidate: every language is where no targets are
/// named, else the named ones.
pub open spec fn is_candidate(language: Seq<char>, targets: Option<Seq<Seq<char>>>) -> bool {
    match targets {
        Some(names) => names.contains(language),
        None => true,
    }
}

/// The candidates among the first `n` languages of the table whose score
/// reaches the threshold, in the order of the table, with their scores.
pub open spec fn qualified(
    profile: Seq<char>,
    languages: Seq<LanguageEntry>,
    targets: Option<Seq<Seq<char>>>,
    threshold: int,
    n: int,
) -> (Seq<Seq<char>>, Seq<usize>)
    decreases n,
{
    if n <= 0 {
        (seq![], seq![])
    } else {
        let (names, scores) = qualified(profile, languages, targets, threshold, n - 1);
        let entry = languages[n - 1];
        let score = language_score(profile, entry.alphabet@);
        if is_candidate(entry.language@, targets) && score >= threshold {
            (names.push(entry.language@), scores.push(score as usize))
        } else {
            (names, scores)
        }
    }
}

/// The first `n` places of a ranking of names by their scores.
pub open spec fn matches_in_order(
    names: Seq<Seq<char>>,
    scores: Seq<usize>,
    order: Seq<int>,
    n: int,
) -> Seq<(Seq<char>, int)>
    decreases n,
{
    if n <= 0 {
        seq![]
    } else {
        matches_in_order(names, scores, order, n - 1).push(
            (names[order[n - 1]], scores[order[n - 1]] as int),
        )
    }
}

/// The languages that a text may be written in, with their scores: the best
/// score first, and of equal scores the language that the table lists first.
pub open spec fn coherence_ratio_spec(
    text: Seq<char>,
    threshold: int,
    targets: Option<Seq<Seq<char>>>,
    tables: &Tables,
) -> Seq<(Seq<char>, int)> {
    let profile = profile_of(alphabet_of(text, text.len() as int, tables));
    let (names, scores) = qualified(
        profile,
        tables.languages@,
        targets,
        threshold,
        tables.languages@.len() as int,
    );
    matches_in_order(names, scores, ranked(scores, scores.len() as int), scores.len() as int)
}

/// Every score of a list lies between `threshold` and 1.
pub open spec fn scores_within(matches: Seq<(Seq<char>, int)>, threshold: int) -> bool {
    forall|i: int| 0 <= i < matches.len() ==> threshold <= (#[trigger] matches[i]).1 <= RATIO_ONE
}

/// The scores of a list never rise.
pub open spec fn scores_descend(matches: Seq<(Seq<char>, int)>) -> bool {
    forall|i: int, j: int|
        0 <= i < j < matches.len() ==> (#[trigger] matches[i]).1 >= (#[trigger] matches[j]).1
}

/// Whether the character is an ASCII digit.
fn is_ascii_digit(c: char) -> (r: bool)
    ensures
        r == is_ascii_digit_spec(c),
{
    let code: u32 = c as u32;
    0x30 <= code && code <= 0x39
}

/// The letters of a text: digits, white space and symbols left out, the rest
/// in lower case and without accents.
pub fn alphabet(text: &[char], tables: &Tables, classifier: &mut Classifier) -> (out: Vec<char>)
    requires
        old(classifier).wf(tables),
    ensures
        final(classifier).wf(tables),
        out@ == alphabet_of(text@, text@.len() as int, tables),
{
    let mut out: Vec<char> = Vec::new();
    let mut i: usize = 0;
    while i < text.len()
        invariant
            i <= text.len(),
            classifier.wf(tables),
            out@ == alphabet_of(text@, i as int, tables),
        decreases text.len() - i,
    {
        let c = text[i];
        if !is_ascii_digit(c) && !c.is_whitespace() && !classifier.is_symbol(&c, tables) {
            let lower = to_lowercase(c);
            let ghost before = out@;
            let mut j: usize = 0;
            while j < lower.len()
                invariant
                    j <= lower.len(),
                    out@ == before + plain_letters(lower@, j as int),
                decreases lower.len() - j,
            {
                out.push(remove_accent(&lower[j]));
                j += 1;
            }
        }
        i += 1;
    }
    out
}

/// Where the letter stands among the letters.
fn find_letter(letters: &[char], c: char) -> (r: Option<usize>)
    ensures
        r is Some == position_of(letters@, c, 0) is Some,
        r matches Some(k) ==> position_of(letters@, c, 0) == Some(k as int) && k < letters.len()
            && letters@[k as int] == c,
{
    let mut k: usize = 0;
    while k < letters.len()
        invariant
            k <= letters.len(),
            position_of(letters@, c, 0) == position_of(letters@, c, k as int),
        decreases letters.len() - k,
    {
        if letters[k] == c {
            return Some(k);
        }
        k += 1;
    }
    None
}

/// Whether `reference` holds the letter.
fn holds_letter(reference: &[char], c: char) -> (r: bool)
    ensures
        r == reference@.contains(c),
{
    let mut k: usize = 0;
    while k < reference.len()
        invariant
            k <= reference.len(),
            forall|j: int| 0 <= j < k ==> reference@[j] != c,
        decreases reference.len() - k,
    {
        if reference[k] == c {
            return true;
        }
        k += 1;
    }
    false
}

/// The profile of an alphabet: its distinct letters, the most frequent first.
pub fn profile(alphabet: &[char]) -> (out: Vec<char>)
    ensures
        out@ == profile_of(alphabet@),
{
    let mut letters: Vec<char> = Vec::new();
    let mut counts: Vec<usize> = Vec::new();
    let mut i: usize = 0;
    while i < alphabet.len()
        invariant
            i <= alphabet.len(),
            (letters@, counts@) == tally(alphabet@, i as int),
            letters@.len() == counts@.len(),
            forall|k: int| 0 <= k < counts@.len() ==> counts@[k] <= i,
        decreases alphabet.len() - i,
    {
        let c = alphabet[i];
        match find_letter(letters.as_slice(), c) {
            Some(k) => {
                let count = counts[k];
                counts.set(k, count + 1);
            },
            None => {
                letters.push(c);
                counts.push(1);
            },
        }
        i += 1;
    }
    let order = rank_descending(counts.as_slice());
    let mut out: Vec<char> = Vec::new();
    let mut p: usize = 0;
    while p < order.len()
        invariant
            p <= order.len(),
            order@.len() == counts@.len(),
            letters@.len() == counts@.len(),
            is_ranking(counts@, index_views(order@), counts@.len() as int),
            out@ == letters_in_order(letters@, index_views(order@), p as int),
        decreases order.len() - p,
    {
        assert(index_views(order@)[p as int] == order@[p as int]);
        out.push(letters[order[p]]);
        p += 1;
    }
    out
}

/// Scores a language against a profile.
pub fn score_language(profile: &[char], reference: &[char]) -> (r: u32)
    ensures
        r == language_score(profile@, reference@),
        r <= RATIO_ONE,
{
    let k = reference.len();
    let observed = if profile.len() < k {
        profile.len()
    } else {
        k
    };
    let mut found: usize = 0;
    let mut i: usize = 0;
    while i < observed
        invariant
            i <= observed <= profile.len(),
            found == hits(profile@, reference@, i as int),
            found <= i,
        decreases observed - i,
    {
        if holds_letter(reference, profile[i]) {
            found += 1;
        }
        i += 1;
    }
    ratio_of(found, k)
}

/// The views of the target languages, where there are any.
pub open spec fn target_views(targets: Option<Vec<String>>) -> Option<Seq<Seq<char>>> {
    match targets {
        Some(names) => Some(views(names@)),
        None => None,
    }
}

/// Ranks the languages that a text may be written in by how coherent the text
/// is with each. Only the `target_languages` are weighed where some are named,
/// else every language of the table. A language whose score is below the
/// threshold is left out; the threshold is one tenth where the caller names
/// none.
pub fn coherence_ratio(
    decoded_sequence: &str,
    threshold: Option<u32>,
    target_languages: Option<Vec<String>>,
    tables: &Tables,
) -> (r: CoherenceMatches)
    ensures
        coherence_views(r@) == coherence_ratio_spec(
            decoded_sequence@,
            match threshold {
                Some(t) => t as int,
                None => DEFAULT_LANGUAGE_THRESHOLD as int,
            },
            target_views(target_languages),
            tables,
        ),
        scores_within(
            coherence_views(r@),
            match threshold {
                Some(t) => t as int,
                None => DEFAULT_LANGUAGE_THRESHOLD as int,
            },
        ),
        scores_descend(coherence_views(r@)),
{
    let text = chars_of(decoded_sequence);
    let mut classifier = Classifier::new();
    coherence_ratio_chars(text.as_slice(), threshold, &target_languages, tables, &mut classifier)
}

/// Ranks the languages that a text, held as characters, may be written in,
/// with the caches of a classifier at hand.
pub fn coherence_ratio_chars(
    text: &[char],
    threshold: Option<u32>,
    target_languages: &Option<Vec<String>>,
    tables: &Tables,
    classifier: &mut Classifier,
) -> (r: CoherenceMatches)
    requires
        old(classifier).wf(tables),
    ensures
        final(classifier).wf(tables),
        coherence_views(r@) == coherence_ratio_spec(
            text@,
            match threshold {
                Some(t) => t as int,
                None => DEFAULT_LANGUAGE_THRESHOLD as int,
            },
            target_views(*target_languages),
            tables,
        ),
        scores_within(
            coherence_views(r@),
            match threshold {
                Some(t) => t as int,
                None => DEFAULT_LANGUAGE_THRESHOLD as int,
            },
        ),
        scores_descend(coherence_views(r@)),
{
    let threshold: u32 = match threshold {
        Some(t) => t,
        None => DEFAULT_LANGUAGE_THRESHOLD,
    };
    let letters = alphabet(text, tables, classifier);
    let leading = profile(letters.as_slice());
    let ghost targets = target_views(*target_languages);
    let mut names: Vec<String> = Vec::new();
    let mut scores: Vec<usize> = Vec::new();
    let mut i: usize = 0;
    while i < tables.languages.len()
        invariant
            i <= tables.languages.len(),
            targets == target_views(*target_languages),
            (views(names@), scores@) == qualified(
                leading@,
                tables.languages@,
                targets,
                threshold as int,
                i as int,
            ),
            names@.len() == scores@.len(),
            forall|k: int| 0 <= k < scores@.len() ==> threshold <= #[trigger] scores@[k] <= RATIO_ONE,
        decreases tables.languages.len() - i,
    {
        let entry = &tables.languages[i];
        let candidate = match target_languages {
            Some(targets) => list_contains(targets.as_slice(), entry.language.as_str()),
            None => true,
        };
        let reference = chars_of(entry.alphabet.as_str());
        let score = score_language(leading.as_slice(), reference.as_slice());
        if candidate && score >= threshold {
            let ghost before = views(names@);
            names.push(entry.language.clone());
            assert(views(names@) =~= before.push(entry.language@));
            scores.push(score as usize);
        }
        i += 1;
    }
    let order = rank_descending(scores.as_slice());
    let mut out: Vec<CoherenceMatch> = Vec::new();
    let mut p: usize = 0;
    while p < order.len()
        invariant
            p <= order.len(),
            order@.len() == scores@.len(),
            names@.len() == scores@.len(),
            is_ranking(scores@, index_views(order@), scores@.len() as int),
            forall|k: int| 0 <= k < scores@.len() ==> threshold <= #[trigger] scores@[k] <= RATIO_ONE,
            coherence_views(out@) == matches_in_order(
                views(names@),
                scores@,
                index_views(order@),
                p as int,
            ),
            out@.len() == p,
            forall|k: int| 0 <= k < p ==> (#[trigger] coherence_views(out@)[k]).1 == scores@[index_views(order@)[k]],
        decreases order.len() - p,
    {
        let at = order[p];
        assert(index_views(order@)[p as int] == at);
        let ghost before = coherence_views(out@);
        let found = CoherenceMatch { language: names[at].clone(), score: scores[at] as u32 };
        out.push(found);
        assert(coherence_views(out@) =~= before.push((views(names@)[at as int], scores@[at as int] as int)));
        p += 1;
    }
    out
}


/// The languages that the first entry for the encoding at or behind `from`
/// names; none where the table has no entry for it.
pub open spec fn hinted_languages(hints: Seq<EncodingLanguages>, encoding: Seq<char>, from: int) -> Seq<
    Seq<char>,
>
    decreases hints.len() - from,
{
    if from < 0 || from >= hints.len() {
        seq![]
    } else if hints[from].encoding@ == encoding {
        views(hints[from].languages@)
    } else {
        hinted_languages(hints, encoding, from + 1)
    }
}

/// The languages that the first entry for the encoding names.
fn lookup_languages(hints: &Vec<EncodingLanguages>, iana_name: &str) -> (r: Vec<String>)
    ensures
        views(r@) == hinted_languages(hints@, iana_name@, 0),
{
    let mut i: usize = 0;
    while i < hints.len()
        invariant
            i <= hints.len(),
            hinted_languages(hints@, iana_name@, 0) == hinted_languages(
                hints@,
                iana_name@,
                i as int,
            ),
        decreases hints.len() - i,
    {
        if str_eq(hints[i].encoding.as_str(), iana_name) {
            let found = clone_names(&hints[i].languages);
            return found;
        }
        i += 1;
    }
    let none: Vec<String> = Vec::new();
    assert(views(none@) =~= seq![]);
    none
}

/// The languages that are commonly written in a single-byte encoding.
pub fn encoding_languages(iana_name: &str, tables: &Tables) -> (r: Vec<String>)
    ensures
        views(r@) == hinted_languages(tables.encoding_languages@, iana_name@, 0),
{
    lookup_languages(&tables.encoding_languages, iana_name)
}

/// The languages that are commonly written in a multi-byte encoding.
pub fn mb_encoding_languages(iana_name: &str, tables: &Tables) -> (r: Vec<String>)
    ensures
        views(r@) == hinted_languages(tables.mb_encoding_languages@, iana_name@, 0),
{
    lookup_languages(&tables.mb_encoding_languages, iana_name)
}

/// The views of several lists of coherence matches.
pub open spec fn list_views(lists: Seq<Vec<CoherenceMatch>>) -> Seq<Seq<(Seq<char>, int)>> {
    lists.map_values(|l: Vec<CoherenceMatch>| coherence_views(l@))
}

/// The first `n` lists, one behind the other.
pub open spec fn flat_upto(lists: Seq<Seq<(Seq<char>, int)>>, n: int) -> Seq<(Seq<char>, int)>
    decreases n,
{
    if n <= 0 {
        seq![]
    } else {
        flat_upto(lists, n - 1) + lists[n - 1]
    }
}

/// The languages among the first `n` matches, in the order in which they
/// first occur, each with the sum of its scores and the number of its matches.
pub open spec fn score_tally(flat: Seq<(Seq<char>, int)>, n: int) -> (
    Seq<Seq<char>>,
    Seq<int>,
    Seq<int>,
)
    decreases n,
{
    if n <= 0 {
        (seq![], seq![], seq![])
    } else {
        let (names, sums, counts) = score_tally(flat, n - 1);
        let (name, score) = flat[n - 1];
        match name_position(names, name, 0) {
            Some(k) => (names, sums.update(k, sums[k] + score), counts.update(k, counts[k] + 1)),
            None => (names.push(name), sums.push(score), counts.push(1)),
        }
    }
}

/// The mean scores of the first `n` languages of a tally, rounded down.
pub open spec fn mean_scores(sums: Seq<int>, counts: Seq<int>, n: int) -> Seq<usize>
    decreases n,
{
    if n <= 0 {
        seq![]
    } else {
        mean_scores(sums, counts, n - 1).push((sums[n - 1] / counts[n - 1]) as usize)
    }
}

/// The languages of several lists, each with the mean of its scores over the
/// lists that name it: the best mean first, and of equal means the language
/// that is named first.
pub open spec fn merge_spec(lists: Seq<Seq<(Seq<char>, int)>>) -> Seq<(Seq<char>, int)> {
    let flat = flat_upto(lists, lists.len() as int);
    let (names, sums, counts) = score_tally(flat, flat.len() as int);
    let means = mean_scores(sums, counts, names.len() as int);
    matches_in_order(names, means, ranked(means, means.len() as int), means.len() as int)
}

/// The matches of several lists in one list, one list behind the other.
fn flatten(results: &Vec<CoherenceMatches>) -> (flat: Vec<CoherenceMatch>)
    ensures
        coherence_views(flat@) == flat_upto(list_views(results@), results@.len() as int),
{
    let ghost lists = list_views(results@);
    let mut flat: Vec<CoherenceMatch> = Vec::new();
    let mut i: usize = 0;
    assert(coherence_views(flat@) =~= flat_upto(lists, 0));
    while i < results.len()
        invariant
            i <= results.len(),
            lists == list_views(results@),
            coherence_views(flat@) == flat_upto(lists, i as int),
        decreases results.len() - i,
    {
        let list = &results[i];
        let ghost start = coherence_views(flat@);
        assert(lists[i as int] == coherence_views(list@));
        let mut j: usize = 0;
        assert(coherence_views(flat@) =~= start + coherence_views(list@).take(0));
        while j < list.len()
            invariant
                j <= list.len(),
                coherence_views(flat@) == start + coherence_views(list@).take(j as int),
            decreases list.len() - j,
        {
            let ghost before = coherence_views(flat@);
            flat.push(list[j].clone());
            assert(coherence_views(flat@) =~= before.push(list@[j as int]@));
            assert(coherence_views(list@)[j as int] == list@[j as int]@);
            assert(before.push(list@[j as int]@) =~= start + coherence_views(list@).take(j + 1));
            j += 1;
        }
        assert(coherence_views(list@).take(list@.len() as int) =~= coherence_views(list@));
        i += 1;
    }
    flat
}

/// Merges the coherence of several chunks: every language gets the mean of
/// its scores over the chunks that name it, and the languages are ranked anew.
pub fn merge_coherence_ratios(results: &Vec<CoherenceMatches>) -> (r: CoherenceMatches)
    ensures
        coherence_views(r@) == merge_spec(list_views(results@)),
        scores_descend(coherence_views(r@)),
{
    let flat = flatten(results);
    let ghost all = coherence_views(flat@);
    let mut names: Vec<String> = Vec::new();
    let mut sums: Vec<u128> = Vec::new();
    let mut counts: Vec<usize> = Vec::new();
    let ghost mut spec_sums: Seq<int> = seq![];
    let ghost mut spec_counts: Seq<int> = seq![];
    let mut t: usize = 0;
    while t < flat.len()
        invariant
            t <= flat.len(),
            all == coherence_views(flat@),
            (views(names@), spec_sums, spec_counts) == score_tally(all, t as int),
            tally_agrees(sums@, counts@, spec_sums, spec_counts, t as int),
            names@.len() == sums@.len(),
        decreases flat.len() - t,
    {
        let item = &flat[t];
        assert(all[t as int] == item@);
        match find_name(&names, item.language.as_str()) {
            Some(k) => {
                let sum = sums[k];
                let count = counts[k];
                assert(sum + item.score <= (count + 1) * u32::MAX) by (nonlinear_arith)
                    requires
                        sum <= count * u32::MAX,
                        item.score <= u32::MAX,
                ;
                assert((count + 1) * u32::MAX <= usize::MAX * u32::MAX) by (nonlinear_arith)
                    requires
                        count + 1 <= usize::MAX,
                ;
                let ghost old_sums = sums@;
                let ghost old_counts = counts@;
                sums.set(k, sum + item.score as u128);
                counts.set(k, count + 1);
                proof {
                    spec_sums = spec_sums.update(k as int, spec_sums[k as int] + item.score);
                    spec_counts = spec_counts.update(k as int, spec_counts[k as int] + 1);
                    assert forall|x: int| 0 <= x < sums@.len() implies {
                        &&& (#[trigger] sums@[x]) as int == spec_sums[x]
                        &&& counts@[x] as int == spec_counts[x]
                        &&& 1 <= counts@[x] <= t + 1
                        &&& sums@[x] <= counts@[x] * u32::MAX
                    } by {
                        if x != k {
                            assert(sums@[x] == old_sums[x]);
                            assert(counts@[x] == old_counts[x]);
                        }
                    }
                }
            },
            None => {
                let ghost old_names = views(names@);
                names.push(item.language.clone());
                assert(views(names@) =~= old_names.push(item.language@));
                let ghost old_sums = sums@;
                let ghost old_counts = counts@;
                sums.push(item.score as u128);
                counts.push(1);
                proof {
                    spec_sums = spec_sums.push(item.score as int);
                    spec_counts = spec_counts.push(1);
                    assert forall|x: int| 0 <= x < sums@.len() implies {
                        &&& (#[trigger] sums@[x]) as int == spec_sums[x]
                        &&& counts@[x] as int == spec_counts[x]
                        &&& 1 <= counts@[x] <= t + 1
                        &&& sums@[x] <= counts@[x] * u32::MAX
                    } by {
                        if x < old_sums.len() {
                            assert(sums@[x] == old_sums[x]);
                            assert(counts@[x] == old_counts[x]);
                        }
                    }
                }
            },
        }
        assert(tally_agrees(sums@, counts@, spec_sums, spec_counts, t + 1));
        t += 1;
    }
    let mut means: Vec<usize> = Vec::new();
    let mut k: usize = 0;
    while k < names.len()
        invariant
            k <= names.len(),
            names@.len() == sums@.len(),
            tally_agrees(sums@, counts@, spec_sums, spec_counts, flat@.len() as int),
            means@ == mean_scores(spec_sums, spec_counts, k as int),
            means@.len() == k,
            forall|x: int| 0 <= x < means@.len() ==> #[trigger] means@[x] <= u32::MAX,
        decreases names.len() - k,
    {
        let sum = sums[k];
        let count = counts[k];
        assert(sum as int / count as int <= u32::MAX) by (nonlinear_arith)
            requires
                sum <= count * u32::MAX,
                count >= 1,
        ;
        let mean = sum / (count as u128);
        means.push(mean as usize);
        k += 1;
    }
    let order = rank_descending(means.as_slice());
    let mut out: Vec<CoherenceMatch> = Vec::new();
    let mut p: usize = 0;
    while p < order.len()
        invariant
            p <= order.len(),
            order@.len() == means@.len(),
            names@.len() == means@.len(),
            is_ranking(means@, index_views(order@), means@.len() as int),
            forall|x: int| 0 <= x < means@.len() ==> #[trigger] means@[x] <= u32::MAX,
            coherence_views(out@) == matches_in_order(
                views(names@),
                means@,
                index_views(order@),
                p as int,
            ),
            out@.len() == p,
            forall|x: int|
                0 <= x < p ==> (#[trigger] coherence_views(out@)[x]).1 == means@[index_views(order@)[x]],
        decreases order.len() - p,
    {
        let at = order[p];
        assert(index_views(order@)[p as int] == at);
        let ghost before = coherence_views(out@);
        let found = CoherenceMatch { language: names[at].clone(), score: means[at] as u32 };
        out.push(found);
        assert(coherence_views(out@) =~= before.push(
            (views(names@)[at as int], means@[at as int] as int),
        ));
        p += 1;
    }
    out
}

/// The sums and counts that are held agree with those of the tally, and are
/// within the bounds that `n` matches allow.
pub open spec fn tally_agrees(
    sums: Seq<u128>,
    counts: Seq<usize>,
    spec_sums: Seq<int>,
    spec_counts: Seq<int>,
    n: int,
) -> bool {
    &&& sums.len() == spec_sums.len()
    &&& counts.len() == spec_counts.len()
    &&& sums.len() == counts.len()
    &&& forall|k: int|
        0 <= k < sums.len() ==> {
            &&& (#[trigger] sums[k]) as int == spec_sums[k]
            &&& counts[k] as int == spec_counts[k]
            &&& 1 <= counts[k] <= n
            &&& sums[k] <= counts[k] * u32::MAX
        }
}

} // verus!
