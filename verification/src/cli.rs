//! The rules of the command line that need no file: which options go
//! together, and how the normalized copy of a file is named.

use crate::text::{chars_of, string_of};
use vstd::prelude::*;
use vstd::string::StringExecFns;

verus! {

/// What is wrong with the options, where something is: `--replace` goes with
/// `--normalize` only, and `--force` with `--replace` only.
pub open spec fn options_fault(normalize: bool, replace: bool, force: bool) -> Option<Seq<char>> {
    if replace && !normalize {
        Some("Use --replace in addition of --normalize only."@)
    } else if force && !replace {
        Some("Use --force in addition of --replace only."@)
    } else {
        None
    }
}

/// Tests whether the options go together.
pub fn check_options(normalize: bool, replace: bool, force: bool) -> (r: Result<(), String>)
    ensures
        match options_fault(normalize, replace, force) {
            Some(fault) => r matches Err(e) && e@ == fault,
            None => r is Ok,
        },
{
    if replace && !normalize {
        return Err(String::from_str("Use --replace in addition of --normalize only."));
    }
    if force && !replace {
        return Err(String::from_str("Use --force in addition of --replace only."));
    }
    Ok(())
}

/// Where the last dot among the first `n` characters stands.
pub open spec fn last_dot(name: Seq<char>, n: int) -> Option<int>
    decreases n,
{
    if n <= 0 {
        None
    } else if name[n - 1] == '.' {
        Some(n - 1)
    } else {
        last_dot(name, n - 1)
    }
}

/// The name of the normalized copy of a file: the name of the file with the
/// encoding put before its extension, or behind the name where it has none.
pub open spec fn normalized_name(filename: Seq<char>, encoding: Seq<char>) -> Seq<char> {
    match last_dot(filename, filename.len() as int) {
        Some(dot) => filename.subrange(0, dot) + seq!['.'] + encoding + seq!['.']
            + filename.subrange(dot + 1, filename.len() as int),
        None => filename + seq!['.'] + encoding,
    }
}

/// Names the normalized copy of a file.
pub fn normalized_file_name(filename: &str, encoding: &str) -> (r: String)
    ensures
        r@ == normalized_name(filename@, encoding@),
{
    let name = chars_of(filename);
    let code = chars_of(encoding);
    let mut n: usize = name.len();
    while n > 0 && name[n - 1] != '.'
        invariant
            n <= name.len(),
            last_dot(name@, name@.len() as int) == last_dot(name@, n as int),
        decreases n,
    {
        n -= 1;
    }
    let mut out: Vec<char> = Vec::new();
    if n > 0 {
        let dot: usize = n - 1;
        out.extend_from_slice(vstd::slice::slice_subrange(name.as_slice(), 0, dot));
        out.push('.');
        out.extend_from_slice(code.as_slice());
        out.push('.');
        out.extend_from_slice(vstd::slice::slice_subrange(name.as_slice(), n, name.len()));
        assert(out@ =~= name@.subrange(0, dot as int) + seq!['.'] + code@ + seq!['.']
            + name@.subrange(dot + 1, name@.len() as int));
    } else {
        out.extend_from_slice(name.as_slice());
        out.push('.');
        out.extend_from_slice(code.as_slice());
        assert(out@ =~= name@ + seq!['.'] + code@);
    }
    string_of(out.as_slice())
}

} // verus!
