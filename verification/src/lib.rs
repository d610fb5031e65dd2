//! Character-set detection: probing of candidate encodings, scoring of the
//! decoded text and ranking of the results.
//!
//! Given bytes of unknown origin, [`from_bytes`] tells in which encodings they
//! can be read as text, and how well: for each encoding that fits, how messy
//! the text looks, which languages it is coherent with, and whether the bytes
//! begin with the signature of the encoding.

pub mod assets;
pub mod cache;
pub mod cd;
pub mod chars;
pub mod cli;
pub mod codec;
pub mod declared;
pub mod entity;
pub mod laws;
pub mod md;
pub mod prober;
pub mod rank;
pub mod ranges;
pub mod ratio;
pub mod text;
pub mod unicode;
pub mod utils;

use crate::assets::Tables;
use crate::entity::{CharsetMatch, CharsetMatches, CoherenceMatches, NormalizerSettings};
use crate::prober::{
    default_settings,
    empty_match,
    first_unresolved,
    from_bytes_spec,
    lemma_first_unresolved,
    make_plan,
    probe_all,
    resolve_names,
    valid_settings,
    SettingsView,
};
use crate::text::views;
use vstd::prelude::*;

verus! {

/// The settings of a detection: those given, or the default ones.
pub open spec fn settings_or_default(settings: Option<NormalizerSettings>) -> SettingsView {
    match settings {
        Some(given) => given@,
        None => default_settings(),
    }
}

/// Why a detection was not run.
#[derive(Debug)]
pub enum SettingsError {
    /// The settings ask for no step at all.
    NoSteps,
    /// The settings ask for chunks of no size.
    NoChunkSize,
    /// The settings name an encoding that is not known.
    UnknownEncoding(String),
}

/// What is known of an error in the settings.
pub enum Fault {
    /// The settings ask for no step at all.
    NoSteps,
    /// The settings ask for chunks of no size.
    NoChunkSize,
    /// The settings name an encoding that is not known.
    UnknownEncoding(Seq<char>),
}

impl View for SettingsError {
    type V = Fault;

    open spec fn view(&self) -> Fault {
        match self {
            SettingsError::NoSteps => Fault::NoSteps,
            SettingsError::NoChunkSize => Fault::NoChunkSize,
            SettingsError::UnknownEncoding(name) => Fault::UnknownEncoding(name@),
        }
    }
}

/// What is wrong with the settings, where something is: the number of steps
/// is looked at before the size of the chunks, then the names of the
/// encodings to probe, then those of the encodings to leave out. Of several
/// names that do not resolve the first is reported.
pub open spec fn settings_fault(settings: SettingsView, tables: &Tables) -> Option<Fault> {
    let supported = views(tables.iana_supported@);
    if settings.steps < 1 {
        Some(Fault::NoSteps)
    } else if settings.chunk_size < 1 {
        Some(Fault::NoChunkSize)
    } else {
        match first_unresolved(settings.included, supported, 0) {
            Some(i) => Some(Fault::UnknownEncoding(settings.included[i])),
            None => match first_unresolved(settings.excluded, supported, 0) {
                Some(i) => Some(Fault::UnknownEncoding(settings.excluded[i])),
                None => None,
            },
        }
    }
}

/// Settings are valid exactly if nothing is wrong with them.
pub proof fn lemma_valid_settings(settings: SettingsView, tables: &Tables)
    ensures
        valid_settings(settings, tables) == (settings_fault(settings, tables) is None),
{
    let supported = views(tables.iana_supported@);
    lemma_first_unresolved(settings.included, supported, 0);
    lemma_first_unresolved(settings.excluded, supported, 0);
}

/// Given a sequence of raw bytes, returns the encodings in which it can be
/// read as text, the best first. An empty result is a strong sign that the
/// bytes are no text.
///
/// The settings must be valid: at least one step, chunks of at least one
/// unit, and names of encodings that resolve. [`detect`] asks nothing of the
/// settings and tests them first.
pub fn from_bytes(bytes: &Vec<u8>, settings: Option<NormalizerSettings>, tables: &Tables) -> (r:
    CharsetMatches)
    requires
        valid_settings(settings_or_default(settings), tables),
    ensures
        r.wf(),
        r@ == from_bytes_spec(bytes@, settings_or_default(settings), tables),
{
    let settings = match settings {
        Some(given) => given,
        None => {
            let standard = NormalizerSettings::default();
            assert(standard@.included =~= seq![]);
            assert(standard@.excluded =~= seq![]);
            standard
        },
    };
    if bytes.len() == 0 {
        let none: CoherenceMatches = Vec::new();
        assert(crate::entity::coherence_views(none@) =~= seq![]);
        let mut only: Vec<CharsetMatch> = Vec::new();
        let found = CharsetMatch::new(bytes.as_slice(), "utf-8", 0, false, &none, None);
        assert(found@.raw =~= seq![]);
        only.push(found);
        let matches = CharsetMatches { items: only };
        assert(matches@ =~= seq![empty_match()]);
        return matches;
    }
    let plan = make_plan(bytes.as_slice(), &settings, tables);
    probe_all(bytes.as_slice(), &plan, tables)
}

/// Runs a detection under any settings: tests them, and detects where they
/// are valid. The error tells what is wrong with them.
pub fn detect(bytes: &Vec<u8>, settings: Option<NormalizerSettings>, tables: &Tables) -> (r: Result<
    CharsetMatches,
    SettingsError,
>)
    ensures
        r is Ok == valid_settings(settings_or_default(settings), tables),
        match settings_fault(settings_or_default(settings), tables) {
            None => r matches Ok(matches) && matches.wf() && matches@ == from_bytes_spec(
                bytes@,
                settings_or_default(settings),
                tables,
            ),
            Some(fault) => r matches Err(error) && error@ == fault,
        },
{
    proof {
        lemma_valid_settings(settings_or_default(settings), tables);
    }
    match &settings {
        Some(given) => {
            if given.steps == 0 {
                return Err(SettingsError::NoSteps);
            }
            if given.chunk_size == 0 {
                return Err(SettingsError::NoChunkSize);
            }
            match resolve_names(&given.include_encodings, tables) {
                Ok(_) => {},
                Err(name) => {
                    return Err(SettingsError::UnknownEncoding(name));
                },
            }
            match resolve_names(&given.exclude_encodings, tables) {
                Ok(_) => {},
                Err(name) => {
                    return Err(SettingsError::UnknownEncoding(name));
                },
            }
        },
        None => {
            assert(default_settings().included.len() == 0);
            assert(default_settings().excluded.len() == 0);
        },
    }
    Ok(from_bytes(bytes, settings, tables))
}

} // verus!
