//! The decisions of the fork workflow that do not touch the file system.
use vstd::prelude::*;
use crate::lines::{disable_existing_line, find_line, ChangeError, Change, Lookup, lookup};
use crate::parser::{chars_of, view_lines};
use crate::types::{disable_line, record_of, Line};

verus! {

/// The version of the package's single record, which is disabled if it was
/// Enabled.
pub fn get_version_and_disable(package: &str, lines: &mut Vec<Line>) -> (r: Result<
    (String, Change),
    ChangeError,
>)
    ensures
        match lookup(view_lines(old(lines)@), package@) {
            Lookup::NotFound => r is Err && r->Err_0 == ChangeError::Missing && final(lines)@
                == old(lines)@,
            Lookup::Found(i) => r matches Ok((v, c)) && v@ == record_of(
                view_lines(old(lines)@)[i],
            ).package.version && view_lines(final(lines)@) == view_lines(old(lines)@).update(
                i,
                disable_line(view_lines(old(lines)@)[i]),
            ) && c == if view_lines(old(lines)@)[i] is Enabled {
                Change::Disabled
            } else {
                Change::AlreadyDisabled
            },
            Lookup::Ambiguous(c) => r matches Err(ChangeError::OccursMany(n)) && n == c
                && final(lines)@ == old(lines)@,
        },
{
    let version = match find_line(lines.as_slice(), package) {
        Ok((Line::Enabled(e), _)) => e.package.version.clone(),
        Ok((Line::Disabled(d), _)) => d.package.version.clone(),
        Ok((Line::Ignored(_), _)) => {
            proof {
                assert(false);
            }
            String::new()
        },
        Err(_) => String::new(),
    };
    match disable_existing_line(package, lines) {
        Ok(c) => Ok((version, c)),
        Err(e) => Err(e),
    }
}

/// The first position at or after `i` that holds `#`, or the length.
pub open spec fn hash_at(s: Seq<char>, i: int) -> int
    decreases s.len() - i,
{
    if 0 <= i < s.len() && s[i] != '#' {
        hash_at(s, i + 1)
    } else {
        i
    }
}

/// A git reference `repo#branch`: the text before the first `#`, and the text
/// between it and the next `#` (or the end) when there is a `#`.
pub open spec fn reference_parts(s: Seq<char>) -> (Seq<char>, Option<Seq<char>>) {
    let h = hash_at(s, 0);
    if h < s.len() {
        (s.subrange(0, h), Some(s.subrange(h + 1, hash_at(s, h + 1))))
    } else {
        (s, None)
    }
}

fn scan_hash(cs: &Vec<char>, i: usize) -> (r: usize)
    requires
        i <= cs.len(),
    ensures
        r == hash_at(cs@, i as int),
        i <= r <= cs.len(),
{
    let mut j = i;
    while j < cs.len() && cs[j] != '#'
        invariant
            i <= j <= cs.len(),
            hash_at(cs@, j as int) == hash_at(cs@, i as int),
        decreases cs.len() - j,
    {
        j = j + 1;
    }
    j
}

/// Splits a git reference `repo#branch` into its repository and branch.
pub fn split_reference(reference: &str) -> (r: (String, Option<String>))
    ensures
        r.0@ == reference_parts(reference@).0,
        match r.1 {
            Some(b) => reference_parts(reference@).1 == Some(b@),
            None => reference_parts(reference@).1 is None,
        },
{
    let cs = chars_of(reference);
    let h = scan_hash(&cs, 0);
    if h < cs.len() {
        let e = scan_hash(&cs, h + 1);
        let repo = reference.substring_char(0, h).to_owned();
        let branch = reference.substring_char(h + 1, e).to_owned();
        (repo, Some(branch))
    } else {
        (reference.to_owned(), None)
    }
}

} // verus!
