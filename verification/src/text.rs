//! Small verified helpers on strings and character sequences.

use vstd::prelude::*;

verus! {

/// `needle` stands in `hay` at position `at`.
pub open spec fn occurs_at(hay: Seq<char>, needle: Seq<char>, at: int) -> bool {
    &&& 0 <= at
    &&& at + needle.len() <= hay.len()
    &&& hay.subrange(at, at + needle.len()) == needle
}

/// `needle` stands somewhere in `hay`.
pub open spec fn contains_seq(hay: Seq<char>, needle: Seq<char>) -> bool {
    exists|at: int| occurs_at(hay, needle, at)
}

/// `hay` begins with `prefix`.
pub open spec fn starts_with_seq(hay: Seq<char>, prefix: Seq<char>) -> bool {
    occurs_at(hay, prefix, 0)
}

/// The views of a sequence of strings.
pub open spec fn views(names: Seq<String>) -> Seq<Seq<char>> {
    names.map_values(|s: String| s@)
}

/// The views of a sequence of string slices.
pub open spec fn str_views(names: Seq<&str>) -> Seq<Seq<char>> {
    names.map_values(|s: &str| s@)
}

/// Some string of `names` begins `hay`.
pub open spec fn any_prefix(hay: Seq<char>, names: Seq<Seq<char>>) -> bool {
    exists|i: int| 0 <= i < names.len() && starts_with_seq(hay, #[trigger] names[i])
}

/// Some string of `names` stands in `hay`.
pub open spec fn any_contained(hay: Seq<char>, names: Seq<Seq<char>>) -> bool {
    exists|i: int| 0 <= i < names.len() && contains_seq(hay, #[trigger] names[i])
}

/// `String::push` appends the character to the end of the string.
pub assume_specification[ String::push ](s: &mut String, c: char)
    ensures
        final(s)@ == old(s)@.push(c),
;

/// The string made of the characters of `chars`, in order.
pub fn string_of(chars: &[char]) -> (out: String)
    ensures
        out@ == chars@,
{
    let mut out = String::new();
    let mut i: usize = 0;
    while i < chars.len()
        invariant
            i <= chars.len(),
            out@ == chars@.take(i as int),
        decreases chars.len() - i,
    {
        out.push(chars[i]);
        assert(chars@.take(i + 1) =~= chars@.take(i as int).push(chars@[i as int]));
        i += 1;
    }
    assert(chars@.take(chars.len() as int) =~= chars@);
    out
}

/// The characters of `s`, in order.
pub fn chars_of(s: &str) -> (out: Vec<char>)
    ensures
        out@ == s@,
{
    let mut out: Vec<char> = Vec::new();
    for c in it: s.chars()
        invariant
            out@ == it.seq().take(it.index()),
            it.seq() == s@,
    {
        out.push(c);
    }
    out
}

/// Whether two strings hold the same characters.
pub fn str_eq(a: &str, b: &str) -> (r: bool)
    ensures
        r == (a@ == b@),
{
    let x = a.to_owned();
    let y = b.to_owned();
    x == y
}

/// Whether two character sequences are the same.
pub fn chars_eq(a: &[char], b: &[char]) -> (r: bool)
    ensures
        r == (a@ == b@),
{
    if a.len() != b.len() {
        return false;
    }
    let mut i: usize = 0;
    while i < a.len()
        invariant
            a.len() == b.len(),
            i <= a.len(),
            forall|k: int| 0 <= k < i ==> a@[k] == b@[k],
        decreases a.len() - i,
    {
        if a[i] != b[i] {
            return false;
        }
        i += 1;
    }
    assert(a@ =~= b@);
    true
}

/// Whether `needle` stands in `hay` at position `at`.
pub fn matches_at(hay: &[char], needle: &[char], at: usize) -> (r: bool)
    requires
        at + needle.len() <= hay.len(),
    ensures
        r == occurs_at(hay@, needle@, at as int),
{
    let mut j: usize = 0;
    while j < needle.len()
        invariant
            j <= needle.len(),
            at + needle.len() <= hay.len(),
            forall|k: int| 0 <= k < j ==> hay@[at + k] == needle@[k],
        decreases needle.len() - j,
    {
        if hay[at + j] != needle[j] {
            assert(hay@.subrange(at as int, at + needle.len())[j as int] == hay@[at + j]);
            return false;
        }
        j += 1;
    }
    assert(hay@.subrange(at as int, at + needle.len()) =~= needle@);
    true
}

/// Whether `needle` stands somewhere in `hay`.
pub fn contains_chars(hay: &[char], needle: &[char]) -> (r: bool)
    ensures
        r == contains_seq(hay@, needle@),
{
    if needle.len() > hay.len() {
        return false;
    }
    if needle.len() == 0 {
        assert(hay@.subrange(0, 0) =~= needle@);
        assert(occurs_at(hay@, needle@, 0));
        return true;
    }
    let last: usize = hay.len() - needle.len();
    let mut i: usize = 0;
    while i <= last
        invariant
            last == hay.len() - needle.len(),
            needle.len() > 0,
            i <= last + 1,
            forall|k: int| 0 <= k < i ==> !occurs_at(hay@, needle@, k),
        decreases last + 1 - i,
    {
        if matches_at(hay, needle, i) {
            return true;
        }
        i += 1;
    }
    false
}

/// Whether `hay` begins with `prefix`.
pub fn starts_with_chars(hay: &[char], prefix: &[char]) -> (r: bool)
    ensures
        r == starts_with_seq(hay@, prefix@),
{
    if prefix.len() > hay.len() {
        return false;
    }
    matches_at(hay, prefix, 0)
}

/// Whether the string `needle` stands somewhere in the string `hay`.
pub fn str_contains(hay: &str, needle: &str) -> (r: bool)
    ensures
        r == contains_seq(hay@, needle@),
{
    let h = chars_of(hay);
    let n = chars_of(needle);
    contains_chars(h.as_slice(), n.as_slice())
}

/// Whether some string of `names` equals `name`.
pub fn list_contains(names: &[String], name: &str) -> (r: bool)
    ensures
        r == views(names@).contains(name@),
{
    let mut i: usize = 0;
    while i < names.len()
        invariant
            i <= names.len(),
            forall|k: int| 0 <= k < i ==> names@[k]@ != name@,
        decreases names.len() - i,
    {
        if str_eq(names[i].as_str(), name) {
            assert(views(names@)[i as int] == name@);
            return true;
        }
        i += 1;
    }
    false
}

/// Whether some string of `patterns` stands in `hay`.
pub fn contains_any(hay: &[char], patterns: &[&str]) -> (r: bool)
    ensures
        r == any_contained(hay@, str_views(patterns@)),
{
    let mut i: usize = 0;
    while i < patterns.len()
        invariant
            i <= patterns.len(),
            forall|k: int| 0 <= k < i ==> !contains_seq(hay@, #[trigger] str_views(patterns@)[k]),
        decreases patterns.len() - i,
    {
        let p = chars_of(patterns[i]);
        if contains_chars(hay, p.as_slice()) {
            assert(str_views(patterns@)[i as int] == p@);
            return true;
        }
        i += 1;
    }
    false
}

/// Whether some string of `prefixes` begins `hay`.
pub fn starts_with_any(hay: &[char], prefixes: &[&str]) -> (r: bool)
    ensures
        r == any_prefix(hay@, str_views(prefixes@)),
{
    let mut i: usize = 0;
    while i < prefixes.len()
        invariant
            i <= prefixes.len(),
            forall|k: int| 0 <= k < i ==> !starts_with_seq(hay@, #[trigger] str_views(prefixes@)[k]),
        decreases prefixes.len() - i,
    {
        let p = chars_of(prefixes[i]);
        if starts_with_chars(hay, p.as_slice()) {
            assert(str_views(prefixes@)[i as int] == p@);
            return true;
        }
        i += 1;
    }
    false
}

/// Whether some string of `names` equals `name`.
pub fn equals_any(name: &[char], names: &[&str]) -> (r: bool)
    ensures
        r == str_views(names@).contains(name@),
{
    let mut i: usize = 0;
    while i < names.len()
        invariant
            i <= names.len(),
            forall|k: int| 0 <= k < i ==> str_views(names@)[k] != name@,
        decreases names.len() - i,
    {
        let p = chars_of(names[i]);
        if chars_eq(name, p.as_slice()) {
            assert(str_views(names@)[i as int] == name@);
            return true;
        }
        i += 1;
    }
    false
}

/// Where `name` stands in `names`, at or behind `from`.
pub open spec fn name_position(names: Seq<Seq<char>>, name: Seq<char>, from: int) -> Option<int>
    decreases names.len() - from,
{
    if from < 0 || from >= names.len() {
        None
    } else if names[from] == name {
        Some(from)
    } else {
        name_position(names, name, from + 1)
    }
}

/// Where the first string of `names` that equals `name` stands.
pub fn find_name(names: &Vec<String>, name: &str) -> (r: Option<usize>)
    ensures
        r is Some == name_position(views(names@), name@, 0) is Some,
        r matches Some(k) ==> name_position(views(names@), name@, 0) == Some(k as int) && k
            < names.len(),
{
    let mut k: usize = 0;
    while k < names.len()
        invariant
            k <= names.len(),
            name_position(views(names@), name@, 0) == name_position(
                views(names@),
                name@,
                k as int,
            ),
        decreases names.len() - k,
    {
        assert(views(names@)[k as int] == names@[k as int]@);
        if str_eq(names[k].as_str(), name) {
            return Some(k);
        }
        k += 1;
    }
    None
}


} // verus!
