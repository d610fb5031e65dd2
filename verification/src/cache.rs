//! A bounded cache of the answers of a predicate on characters, least
//! recently used first out.
//!
//! The cache is a matter of speed alone: what is read from it is what the
//! predicate would have answered.

use crate::assets::Tables;
use crate::chars::{
    is_accentuated,
    is_accentuated_spec,
    is_cjk,
    is_cjk_spec,
    is_punctuation,
    is_punctuation_spec,
    is_separator,
    is_separator_spec,
    is_symbol,
    is_symbol_spec,
};
use lru_cache::LruCache;
use std::hash::{BuildHasher, Hash};
use vstd::prelude::*;

verus! {

/// `lru_cache::LruCache`, of which nothing is seen but what the functions
/// below say.
#[verifier::external_type_specification]
#[verifier::external_body]
#[verifier::reject_recursive_types(K)]
#[verifier::reject_recursive_types(V)]
#[verifier::reject_recursive_types(S)]
pub struct ExLruCache<K: Eq + Hash, V, S: BuildHasher>(LruCache<K, V, S>);

/// What a cache holds: the answers by code point.
pub uninterp spec fn cache_contents(cache: LruCache<u32, bool>) -> Map<u32, bool>;

/// How many answers a cache was made for.
pub uninterp spec fn cache_capacity(cache: LruCache<u32, bool>) -> nat;

/// `LruCache::new`: an empty cache that holds at most `capacity` entries.
#[verifier::external_body]
pub(crate) fn cache_new(capacity: usize) -> (r: LruCache<u32, bool>)
    ensures
        cache_contents(r) =~= Map::empty(),
        cache_capacity(r) == capacity,
{
    LruCache::new(capacity)
}

/// `LruCache::get_mut`: the answer that is held for the key, if one is. The
/// call marks the entry as used and changes nothing of what the cache holds.
#[verifier::external_body]
pub(crate) fn cache_get(cache: &mut LruCache<u32, bool>, key: u32) -> (r: Option<bool>)
    ensures
        cache_contents(*final(cache)) == cache_contents(*old(cache)),
        cache_capacity(*final(cache)) == cache_capacity(*old(cache)),
        r == if cache_contents(*old(cache)).contains_key(key) {
            Some(cache_contents(*old(cache))[key])
        } else {
            None
        },
{
    match cache.get_mut(&key) {
        Some(value) => Some(*value),
        None => None,
    }
}

/// `LruCache::insert`: the answer is put in as the most recently used entry,
/// and where the cache is over its capacity then, its least recently used
/// entry leaves. So whatever the cache holds afterwards, it held before or it
/// is the new entry; and a cache that was made for at least one entry holds
/// the new entry afterwards, since the entry that leaves is never the newest
/// of two or more.
#[verifier::external_body]
pub(crate) fn cache_insert(cache: &mut LruCache<u32, bool>, key: u32, value: bool)
    ensures
        cache_capacity(*final(cache)) == cache_capacity(*old(cache)),
        cache_capacity(*old(cache)) >= 1 ==> cache_contents(*final(cache)).contains_key(key)
            && cache_contents(*final(cache))[key] == value,
        forall|k: u32| #[trigger]
            cache_contents(*final(cache)).contains_key(k) ==> cache_contents(*old(cache)).insert(
                key,
                value,
            ).contains_key(k) && cache_contents(*final(cache))[k] == cache_contents(
                *old(cache),
            ).insert(key, value)[k],
{
    cache.insert(key, value);
}

/// The answers of one predicate, cached.
pub struct PredicateCache {
    pub answers: LruCache<u32, bool>,
}

impl PredicateCache {
    /// Every answer that is held is the answer of `predicate`.
    pub open spec fn agrees_with(&self, predicate: spec_fn(char) -> bool) -> bool {
        forall|c: char| #[trigger]
            cache_contents(self.answers).contains_key(c as u32) ==> cache_contents(
                self.answers,
            )[c as u32] == predicate(c)
    }

    /// An empty cache for at most `capacity` answers.
    pub fn new(capacity: usize) -> (r: Self)
        ensures
            r.contents() =~= Map::empty(),
            r.capacity() == capacity,
            forall|predicate: spec_fn(char) -> bool| r.agrees_with(predicate),
    {
        PredicateCache { answers: cache_new(capacity) }
    }

    /// The answer for a character, where it is held. What the cache holds
    /// stays as it is.
    pub(crate) fn lookup(&mut self, c: char, Ghost(predicate): Ghost<spec_fn(char) -> bool>) -> (r: Option<
        bool,
    >)
        requires
            old(self).agrees_with(predicate),
        ensures
            final(self).contents() == old(self).contents(),
            final(self).capacity() == old(self).capacity(),
            r == if old(self).contents().contains_key(c as u32) {
                Some(old(self).contents()[c as u32])
            } else {
                None
            },
            final(self).agrees_with(predicate),
            r matches Some(answer) ==> answer == predicate(c),
    {
        cache_get(&mut self.answers, c as u32)
    }

    /// Keeps the answer for a character. A cache that was made for at least
    /// one answer holds it afterwards; to make room, an older answer may
    /// leave, and nothing else changes.
    pub(crate) fn store(&mut self, c: char, answer: bool, Ghost(predicate): Ghost<spec_fn(char) -> bool>)
        requires
            old(self).agrees_with(predicate),
            answer == predicate(c),
        ensures
            final(self).capacity() == old(self).capacity(),
            old(self).capacity() >= 1 ==> final(self).contents().contains_key(c as u32)
                && final(self).contents()[c as u32] == answer,
            final(self).contents().submap_of(old(self).contents().insert(c as u32, answer)),
            final(self).agrees_with(predicate),
    {
        cache_insert(&mut self.answers, c as u32, answer);
        proof {
            assert forall|d: char| #[trigger]
                cache_contents(self.answers).contains_key(d as u32) implies cache_contents(
                self.answers,
            )[d as u32] == predicate(d) by {
                if d as u32 != c as u32 {
                    assert(cache_contents(old(self).answers).contains_key(d as u32));
                }
            }
        }
    }

    /// What the cache holds: the answers by code point.
    pub open spec fn contents(&self) -> Map<u32, bool> {
        cache_contents(self.answers)
    }

    /// How many answers the cache was made for.
    pub open spec fn capacity(&self) -> nat {
        cache_capacity(self.answers)
    }
}


/// How many answers a cache holds at most: one for every code point that is
/// a character.
pub const UTF8_MAXIMAL_ALLOCATION: usize = 1_112_064;

/// The predicate behind the cache of punctuation.
pub open spec fn punctuation_of(tables: &Tables) -> spec_fn(char) -> bool {
    |c: char| is_punctuation_spec(c, tables.ranges@)
}

/// The predicate behind the cache of symbols.
pub open spec fn symbol_of(tables: &Tables) -> spec_fn(char) -> bool {
    |c: char| is_symbol_spec(c, tables.ranges@)
}

/// The predicate behind the cache of separators.
pub open spec fn separator_of(tables: &Tables) -> spec_fn(char) -> bool {
    |c: char| is_separator_spec(c, tables.ranges@)
}

/// The predicate behind the cache of accentuated letters.
pub open spec fn accentuated_of() -> spec_fn(char) -> bool {
    |c: char| is_accentuated_spec(c)
}

/// The predicate behind the cache of CJK characters.
pub open spec fn cjk_of() -> spec_fn(char) -> bool {
    |c: char| is_cjk_spec(c)
}

/// The predicates that the reading of a text asks of every character, each
/// with a cache of its answers.
pub struct Classifier {
    pub punctuation: PredicateCache,
    pub symbol: PredicateCache,
    pub separator: PredicateCache,
    pub accentuated: PredicateCache,
    pub cjk: PredicateCache,
}

impl Classifier {
    /// Every cache agrees with its predicate, under the tables.
    pub open spec fn wf(&self, tables: &Tables) -> bool {
        &&& self.punctuation.agrees_with(punctuation_of(tables))
        &&& self.symbol.agrees_with(symbol_of(tables))
        &&& self.separator.agrees_with(separator_of(tables))
        &&& self.accentuated.agrees_with(accentuated_of())
        &&& self.cjk.agrees_with(cjk_of())
    }

    /// A classifier with empty caches. It fits any tables.
    pub fn new() -> (r: Self)
        ensures
            forall|tables: &Tables| r.wf(tables),
    {
        Classifier {
            punctuation: PredicateCache::new(UTF8_MAXIMAL_ALLOCATION),
            symbol: PredicateCache::new(UTF8_MAXIMAL_ALLOCATION),
            separator: PredicateCache::new(UTF8_MAXIMAL_ALLOCATION),
            accentuated: PredicateCache::new(UTF8_MAXIMAL_ALLOCATION),
            cjk: PredicateCache::new(UTF8_MAXIMAL_ALLOCATION),
        }
    }

    /// Whether the character is punctuation.
    pub fn is_punctuation(&mut self, character: &char, tables: &Tables) -> (r: bool)
        requires
            old(self).wf(tables),
        ensures
            final(self).wf(tables),
            r == is_punctuation_spec(*character, tables.ranges@),
    {
        match self.punctuation.lookup(*character, Ghost(punctuation_of(tables))) {
            Some(answer) => answer,
            None => {
                let answer = is_punctuation(character, tables);
                self.punctuation.store(*character, answer, Ghost(punctuation_of(tables)));
                answer
            },
        }
    }

    /// Whether the character is a symbol.
    pub fn is_symbol(&mut self, character: &char, tables: &Tables) -> (r: bool)
        requires
            old(self).wf(tables),
        ensures
            final(self).wf(tables),
            r == is_symbol_spec(*character, tables.ranges@),
    {
        match self.symbol.lookup(*character, Ghost(symbol_of(tables))) {
            Some(answer) => answer,
            None => {
                let answer = is_symbol(character, tables);
                self.symbol.store(*character, answer, Ghost(symbol_of(tables)));
                answer
            },
        }
    }

    /// Whether the character is a separator.
    pub fn is_separator(&mut self, character: &char, tables: &Tables) -> (r: bool)
        requires
            old(self).wf(tables),
        ensures
            final(self).wf(tables),
            r == is_separator_spec(*character, tables.ranges@),
    {
        match self.separator.lookup(*character, Ghost(separator_of(tables))) {
            Some(answer) => answer,
            None => {
                let answer = is_separator(character, tables);
                self.separator.store(*character, answer, Ghost(separator_of(tables)));
                answer
            },
        }
    }

    /// Whether the character is an accentuated letter.
    pub fn is_accentuated(&mut self, character: &char, tables: &Tables) -> (r: bool)
        requires
            old(self).wf(tables),
        ensures
            final(self).wf(tables),
            r == is_accentuated_spec(*character),
    {
        match self.accentuated.lookup(*character, Ghost(accentuated_of())) {
            Some(answer) => answer,
            None => {
                let answer = is_accentuated(character);
                self.accentuated.store(*character, answer, Ghost(accentuated_of()));
                answer
            },
        }
    }

    /// Whether the character is a CJK character.
    pub fn is_cjk(&mut self, character: &char, tables: &Tables) -> (r: bool)
        requires
            old(self).wf(tables),
        ensures
            final(self).wf(tables),
            r == is_cjk_spec(*character),
    {
        match self.cjk.lookup(*character, Ghost(cjk_of())) {
            Some(answer) => answer,
            None => {
                let answer = is_cjk(character);
                self.cjk.store(*character, answer, Ghost(cjk_of()));
                answer
            },
        }
    }
}

} // verus!
