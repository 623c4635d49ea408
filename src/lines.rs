//! Lookup of records by package name, and the mutations over a file's lines.
use vstd::prelude::*;
use crate::parser::{lemma_view_lines_push, view_lines};
use crate::types::{
    disable_line, enable_line, record_of, refers_to, render_line, update_line, Enabled, Line, LineView,
    Package, PackageView, RecordView,
};

verus! {

/// Why a lookup that needed exactly one record failed.
#[derive(Debug, PartialEq, Eq, Structural)]
pub enum FindError {
    Missing,
    /// The package has this many records (two or more).
    OccursMany(usize),
}

/// Why a mutation refused to proceed; the lines are then left untouched.
#[derive(Debug, PartialEq, Eq, Structural)]
pub enum ChangeError {
    Missing,
    AlreadyExists,
    /// The package has this many records (two or more).
    OccursMany(usize),
}

/// What a successful mutation did.
#[derive(Debug, PartialEq, Eq, Structural)]
pub enum Change {
    /// A new Enabled record was appended.
    Added,
    /// The record's version was replaced by a different one.
    Updated,
    /// The record already had the requested version.
    SameVersion,
    /// A Disabled record became Enabled.
    Enabled,
    /// An Enabled record became Disabled.
    Disabled,
    AlreadyEnabled,
    AlreadyDisabled,
    /// No record of the package exists; nothing was done.
    NotPresent,
}

/// The model of a lookup: none, exactly one (its index), or how many.
pub enum Lookup {
    NotFound,
    Found(int),
    Ambiguous(nat),
}

impl Change {
    /// Whether the lines must be written back: every change but the no-ops
    /// (already enabled, already disabled, not present).
    pub open spec fn spec_needs_write(&self) -> bool {
        !(self is AlreadyEnabled || self is AlreadyDisabled || self is NotPresent)
    }

    #[verifier::when_used_as_spec(spec_needs_write)]
    pub fn needs_write(&self) -> (r: bool)
        ensures
            r == self.spec_needs_write(),
    {
        match self {
            Change::AlreadyEnabled | Change::AlreadyDisabled | Change::NotPresent => false,
            _ => true,
        }
    }
}

/// Indices, in increasing order, of the records of package `name`.
pub open spec fn ref_indices(ls: Seq<LineView>, name: Seq<char>) -> Seq<int>
    decreases ls.len(),
{
    if ls.len() == 0 {
        Seq::empty()
    } else {
        let rest = ref_indices(ls.drop_last(), name);
        if refers_to(ls.last(), name) {
            rest.push(ls.len() - 1)
        } else {
            rest
        }
    }
}

pub open spec fn lookup(ls: Seq<LineView>, name: Seq<char>) -> Lookup {
    let refs = ref_indices(ls, name);
    if refs.len() == 0 {
        Lookup::NotFound
    } else if refs.len() == 1 {
        Lookup::Found(refs[0])
    } else {
        Lookup::Ambiguous(refs.len())
    }
}

/// A fresh Enabled record with no text around it.
pub open spec fn new_record(name: Seq<char>, version: Seq<char>) -> LineView {
    LineView::Enabled(
        RecordView {
            pre: Seq::empty(),
            package: PackageView { name, version },
            post: Seq::empty(),
        },
    )
}

/// The text of a file: each line followed by `\n`.
pub open spec fn render_text(ls: Seq<LineView>) -> Seq<char>
    decreases ls.len(),
{
    if ls.len() == 0 {
        Seq::empty()
    } else {
        render_text(ls.drop_last()) + render_line(ls.last()) + seq!['\n']
    }
}

/// `ref_indices` lists exactly the records of the package, each once.
pub proof fn lemma_ref_indices(ls: Seq<LineView>, name: Seq<char>)
    ensures
        forall|k: int|
            0 <= k < ref_indices(ls, name).len() ==> 0 <= #[trigger] ref_indices(ls, name)[k]
                < ls.len() && refers_to(ls[ref_indices(ls, name)[k]], name),
        forall|k1: int, k2: int|
            0 <= k1 < k2 < ref_indices(ls, name).len() ==> ref_indices(ls, name)[k1]
                < ref_indices(ls, name)[k2],
        forall|i: int|
            0 <= i < ls.len() && refers_to(#[trigger] ls[i], name) ==> ref_indices(
                ls,
                name,
            ).contains(i),
    decreases ls.len(),
{
    if ls.len() > 0 {
        let rest = ls.drop_last();
        lemma_ref_indices(rest, name);
        let r = ref_indices(ls, name);
        assert forall|i: int| 0 <= i < ls.len() && refers_to(#[trigger] ls[i], name) implies r.contains(
            i,
        ) by {
            if i < ls.len() - 1 {
                assert(rest[i] == ls[i]);
                let k = choose|k: int| 0 <= k < ref_indices(rest, name).len() && ref_indices(
                    rest,
                    name,
                )[k] == i;
                assert(r[k] == i);
            } else {
                assert(r.last() == i);
            }
        }
    }
}

/// A lookup has exactly one outcome; a record it finds belongs to the package.
pub proof fn lemma_lookup_total(ls: Seq<LineView>, name: Seq<char>)
    ensures
        lookup(ls, name) is NotFound <==> (forall|i: int|
            0 <= i < ls.len() ==> !refers_to(#[trigger] ls[i], name)),
        lookup(ls, name) matches Lookup::Found(i) ==> 0 <= i < ls.len() && refers_to(
            ls[i],
            name,
        ) && (forall|j: int| 0 <= j < ls.len() && j != i ==> !refers_to(#[trigger] ls[j], name)),
        lookup(ls, name) matches Lookup::Ambiguous(c) ==> c >= 2,
{
    lemma_ref_indices(ls, name);
    let r = ref_indices(ls, name);
    if r.len() == 0 {
        assert forall|i: int| 0 <= i < ls.len() implies !refers_to(#[trigger] ls[i], name) by {
            if refers_to(ls[i], name) {
                assert(r.contains(i));
            }
        }
    } else {
        assert(refers_to(ls[r[0]], name));
    }
}

/// The indices of the records of `package`, in increasing order.
pub fn get_refs(lines: &[Line], package: &str) -> (r: Vec<usize>)
    ensures
        r@.map_values(|i: usize| i as int) == ref_indices(view_lines(lines@), package@),
{
    let name = package.to_owned();
    let ghost vl = view_lines(lines@);
    let mut r: Vec<usize> = Vec::new();
    let mut i: usize = 0;
    while i < lines.len()
        invariant
            i <= lines.len(),
            vl == view_lines(lines@),
            name@ == package@,
            r@.map_values(|i: usize| i as int) == ref_indices(vl.take(i as int), package@),
        decreases lines.len() - i,
    {
        let hit = match &lines[i] {
            Line::Enabled(e) => e.package.name == name,
            Line::Disabled(d) => d.package.name == name,
            Line::Ignored(_) => false,
        };
        proof {
            assert(vl.take(i + 1).drop_last() =~= vl.take(i as int));
            assert(vl.take(i + 1).last() == lines@[i as int]@);
        }
        if hit {
            r.push(i);
            assert(r@.map_values(|i: usize| i as int) =~= ref_indices(vl.take(i + 1), package@));
        }
        i = i + 1;
    }
    assert(vl.take(lines.len() as int) =~= vl);
    r
}

/// Looks up the single record of `package`.
pub fn find_line<'a>(lines: &'a [Line], package: &str) -> (r: Result<(&'a Line, usize), FindError>)
    ensures
        match lookup(view_lines(lines@), package@) {
            Lookup::NotFound => r == Err::<(&Line, usize), FindError>(FindError::Missing),
            Lookup::Found(i) => r matches Ok((l, j)) && j == i && *l == lines@[i],
            Lookup::Ambiguous(c) => r matches Err(FindError::OccursMany(n)) && n == c,
        },
        r matches Ok((l, i)) ==> i < lines@.len() && refers_to(l@, package@),
{
    let refs = get_refs(lines, package);
    proof {
        lemma_ref_indices(view_lines(lines@), package@);
        assert(refs@.len() == ref_indices(view_lines(lines@), package@).len());
    }
    if refs.len() == 0 {
        Err(FindError::Missing)
    } else if refs.len() == 1 {
        let i = refs[0];
        assert(i as int == ref_indices(view_lines(lines@), package@)[0]);
        Ok((&lines[i], i))
    } else {
        Err(FindError::OccursMany(refs.len()))
    }
}

/// The text of the lines, each followed by `\n`.
pub fn render_lines(lines: &[Line]) -> (r: String)
    ensures
        r@ == render_text(view_lines(lines@)),
{
    let ghost vl = view_lines(lines@);
    let mut r = String::new();
    let mut i: usize = 0;
    while i < lines.len()
        invariant
            i <= lines.len(),
            vl == view_lines(lines@),
            r@ == render_text(vl.take(i as int)),
        decreases lines.len() - i,
    {
        let text = lines[i].render();
        r.append(text.as_str());
        r.append("\n");
        proof {
            reveal_strlit("\n");
            assert(vl.take(i + 1).drop_last() =~= vl.take(i as int));
            assert(vl.take(i + 1).last() == lines@[i as int]@);
        }
        i = i + 1;
    }
    assert(vl.take(lines.len() as int) =~= vl);
    r
}

proof fn lemma_refs_push(ls: Seq<LineView>, l: LineView, name: Seq<char>)
    ensures
        ref_indices(ls.push(l), name) == if refers_to(l, name) {
            ref_indices(ls, name).push(ls.len() as int)
        } else {
            ref_indices(ls, name)
        },
{
    assert(ls.push(l).drop_last() =~= ls);
}

/// Appends a fresh Enabled record `package = "version"`.
fn push_new(package: &str, version: &str, lines: &mut Vec<Line>)
    ensures
        view_lines(final(lines)@) == view_lines(old(lines)@).push(new_record(package@, version@)),
{
    let record = Enabled::new("", "", Package::new(package, version));
    proof {
        reveal_strlit("");
        assert(""@ =~= Seq::<char>::empty());
        lemma_view_lines_push(lines@, Line::Enabled(record));
    }
    lines.push(Line::Enabled(record));
}

/// Replaces line `i` by its enabled (or else disabled) form.
fn replace_line(lines: &mut Vec<Line>, i: usize, enable: bool)
    requires
        i < old(lines)@.len(),
        !(old(lines)@[i as int]@ is Ignored),
    ensures
        view_lines(final(lines)@) == view_lines(old(lines)@).update(
            i as int,
            if enable {
                enable_line(old(lines)@[i as int]@)
            } else {
                disable_line(old(lines)@[i as int]@)
            },
        ),
{
    let ghost before = lines@;
    let l = lines.remove(i);
    let l = if enable {
        l.enable()
    } else {
        l.disable()
    };
    lines.insert(i, l);
    assert(view_lines(lines@) =~= view_lines(before).update(i as int, l@));
}

/// Where `package` stands and whether that record is Enabled.
fn locate(lines: &Vec<Line>, package: &str) -> (r: Result<(usize, bool), FindError>)
    ensures
        match lookup(view_lines(lines@), package@) {
            Lookup::NotFound => r == Err::<(usize, bool), FindError>(FindError::Missing),
            Lookup::Found(i) => r matches Ok((j, en)) && j == i && j < lines@.len() && en == (
            lines@[i]@ is Enabled) && !(lines@[i]@ is Ignored) && refers_to(lines@[i]@, package@),
            Lookup::Ambiguous(c) => r matches Err(FindError::OccursMany(n)) && n == c,
        },
{
    match find_line(lines.as_slice(), package) {
        Ok((l, i)) => Ok((i, matches!(l, Line::Enabled(_)))),
        Err(e) => Err(e),
    }
}

/// Adds `package = "version"` at the end, unless the package has a record.
pub fn add_new_line(package: &str, version: &str, lines: &mut Vec<Line>) -> (r: Result<
    Change,
    ChangeError,
>)
    ensures
        match lookup(view_lines(old(lines)@), package@) {
            Lookup::NotFound => r == Ok::<Change, ChangeError>(Change::Added) && view_lines(
                final(lines)@,
            ) == view_lines(old(lines)@).push(new_record(package@, version@)),
            Lookup::Found(_) => r == Err::<Change, ChangeError>(ChangeError::AlreadyExists)
                && final(lines)@ == old(lines)@,
            Lookup::Ambiguous(c) => r matches Err(ChangeError::OccursMany(n)) && n == c
                && final(lines)@ == old(lines)@,
        },
        r is Ok ==> ref_indices(view_lines(final(lines)@), package@).len() == 1,
{
    match locate(lines, package) {
        Ok(_) => Err(ChangeError::AlreadyExists),
        Err(FindError::OccursMany(n)) => Err(ChangeError::OccursMany(n)),
        Err(FindError::Missing) => {
            push_new(package, version, lines);
            proof {
                lemma_refs_push(view_lines(old(lines)@), new_record(package@, version@), package@);
            }
            Ok(Change::Added)
        },
    }
}

/// Sets the version of the record at `i`.
fn update_at(lines: &mut Vec<Line>, i: usize, version: &str) -> (r: Change)
    requires
        i < old(lines)@.len(),
        !(old(lines)@[i as int]@ is Ignored),
    ensures
        view_lines(final(lines)@) == view_lines(old(lines)@).update(
            i as int,
            update_line(old(lines)@[i as int]@, version@),
        ),
        r == if record_of(old(lines)@[i as int]@).package.version == version@ {
            Change::SameVersion
        } else {
            Change::Updated
        },
{
    let ghost before = lines@;
    let mut l = lines.remove(i);
    let changed = l.update(version);
    lines.insert(i, l);
    assert(view_lines(lines@) =~= view_lines(before).update(i as int, l@));
    if changed {
        Change::Updated
    } else {
        Change::SameVersion
    }
}

/// Sets the version of the package's record, or adds the record if there is none.
pub fn add_or_update_line(package: &str, version: &str, lines: &mut Vec<Line>) -> (r: Result<
    Change,
    ChangeError,
>)
    ensures
        match lookup(view_lines(old(lines)@), package@) {
            Lookup::NotFound => r == Ok::<Change, ChangeError>(Change::Added) && view_lines(
                final(lines)@,
            ) == view_lines(old(lines)@).push(new_record(package@, version@)),
            Lookup::Found(i) => view_lines(final(lines)@) == view_lines(old(lines)@).update(
                i,
                update_line(view_lines(old(lines)@)[i], version@),
            ) && r == Ok::<Change, ChangeError>(
                if record_of(view_lines(old(lines)@)[i]).package.version == version@ {
                    Change::SameVersion
                } else {
                    Change::Updated
                },
            ),
            Lookup::Ambiguous(c) => r matches Err(ChangeError::OccursMany(n)) && n == c
                && final(lines)@ == old(lines)@,
        },
{
    match locate(lines, package) {
        Ok((i, _)) => Ok(update_at(lines, i, version)),
        Err(FindError::Missing) => {
            push_new(package, version, lines);
            Ok(Change::Added)
        },
        Err(FindError::OccursMany(n)) => Err(ChangeError::OccursMany(n)),
    }
}

/// Sets the version of the package's single record.
pub fn update_existing_line(package: &str, version: &str, lines: &mut Vec<Line>) -> (r: Result<
    Change,
    ChangeError,
>)
    ensures
        match lookup(view_lines(old(lines)@), package@) {
            Lookup::NotFound => r == Err::<Change, ChangeError>(ChangeError::Missing)
                && final(lines)@ == old(lines)@,
            Lookup::Found(i) => view_lines(final(lines)@) == view_lines(old(lines)@).update(
                i,
                update_line(view_lines(old(lines)@)[i], version@),
            ) && r == Ok::<Change, ChangeError>(
                if record_of(view_lines(old(lines)@)[i]).package.version == version@ {
                    Change::SameVersion
                } else {
                    Change::Updated
                },
            ),
            Lookup::Ambiguous(c) => r matches Err(ChangeError::OccursMany(n)) && n == c
                && final(lines)@ == old(lines)@,
        },
{
    match locate(lines, package) {
        Ok((i, _)) => Ok(update_at(lines, i, version)),
        Err(FindError::Missing) => Err(ChangeError::Missing),
        Err(FindError::OccursMany(n)) => Err(ChangeError::OccursMany(n)),
    }
}

/// Disables the record found at `i`, if it is Enabled.
fn disable_found(lines: &mut Vec<Line>, i: usize, enabled: bool) -> (r: Change)
    requires
        i < old(lines)@.len(),
        !(old(lines)@[i as int]@ is Ignored),
        enabled == (old(lines)@[i as int]@ is Enabled),
    ensures
        view_lines(final(lines)@) == view_lines(old(lines)@).update(
            i as int,
            disable_line(old(lines)@[i as int]@),
        ),
        enabled ==> r == Change::Disabled,
        !enabled ==> r == Change::AlreadyDisabled && final(lines)@ == old(lines)@,
{
    if enabled {
        replace_line(lines, i, false);
        Change::Disabled
    } else {
        assert(view_lines(lines@).update(i as int, disable_line(lines@[i as int]@)) =~= view_lines(
            lines@,
        ));
        Change::AlreadyDisabled
    }
}

/// Enables the record found at `i`, if it is Disabled.
fn enable_found(lines: &mut Vec<Line>, i: usize, enabled: bool) -> (r: Change)
    requires
        i < old(lines)@.len(),
        !(old(lines)@[i as int]@ is Ignored),
        enabled == (old(lines)@[i as int]@ is Enabled),
    ensures
        view_lines(final(lines)@) == view_lines(old(lines)@).update(
            i as int,
            enable_line(old(lines)@[i as int]@),
        ),
        !enabled ==> r == Change::Enabled,
        enabled ==> r == Change::AlreadyEnabled && final(lines)@ == old(lines)@,
{
    if enabled {
        assert(view_lines(lines@).update(i as int, enable_line(lines@[i as int]@)) =~= view_lines(
            lines@,
        ));
        Change::AlreadyEnabled
    } else {
        replace_line(lines, i, true);
        Change::Enabled
    }
}

/// Comments out the package's single record; fails if there is none.
pub fn disable_existing_line(package: &str, lines: &mut Vec<Line>) -> (r: Result<
    Change,
    ChangeError,
>)
    ensures
        match lookup(view_lines(old(lines)@), package@) {
            Lookup::NotFound => r == Err::<Change, ChangeError>(ChangeError::Missing)
                && final(lines)@ == old(lines)@,
            Lookup::Found(i) => view_lines(final(lines)@) == view_lines(old(lines)@).update(
                i,
                disable_line(view_lines(old(lines)@)[i]),
            ) && r == Ok::<Change, ChangeError>(
                if view_lines(old(lines)@)[i] is Enabled {
                    Change::Disabled
                } else {
                    Change::AlreadyDisabled
                },
            ) && (view_lines(old(lines)@)[i] is Disabled ==> final(lines)@ == old(lines)@),
            Lookup::Ambiguous(c) => r matches Err(ChangeError::OccursMany(n)) && n == c
                && final(lines)@ == old(lines)@,
        },
{
    match locate(lines, package) {
        Ok((i, enabled)) => Ok(disable_found(lines, i, enabled)),
        Err(FindError::Missing) => Err(ChangeError::Missing),
        Err(FindError::OccursMany(n)) => Err(ChangeError::OccursMany(n)),
    }
}

/// Comments out the package's record if there is one.
pub fn disable_line_if_present(package: &str, lines: &mut Vec<Line>) -> (r: Result<
    Change,
    ChangeError,
>)
    ensures
        match lookup(view_lines(old(lines)@), package@) {
            Lookup::NotFound => r == Ok::<Change, ChangeError>(Change::NotPresent) && final(lines)@
                == old(lines)@,
            Lookup::Found(i) => view_lines(final(lines)@) == view_lines(old(lines)@).update(
                i,
                disable_line(view_lines(old(lines)@)[i]),
            ) && r == Ok::<Change, ChangeError>(
                if view_lines(old(lines)@)[i] is Enabled {
                    Change::Disabled
                } else {
                    Change::AlreadyDisabled
                },
            ) && (view_lines(old(lines)@)[i] is Disabled ==> final(lines)@ == old(lines)@),
            Lookup::Ambiguous(c) => r matches Err(ChangeError::OccursMany(n)) && n == c
                && final(lines)@ == old(lines)@,
        },
{
    match locate(lines, package) {
        Ok((i, enabled)) => Ok(disable_found(lines, i, enabled)),
        Err(FindError::Missing) => Ok(Change::NotPresent),
        Err(FindError::OccursMany(n)) => Err(ChangeError::OccursMany(n)),
    }
}

/// Uncomments the package's single record; fails if there is none.
pub fn enable_existing_line(package: &str, lines: &mut Vec<Line>) -> (r: Result<
    Change,
    ChangeError,
>)
    ensures
        match lookup(view_lines(old(lines)@), package@) {
            Lookup::NotFound => r == Err::<Change, ChangeError>(ChangeError::Missing)
                && final(lines)@ == old(lines)@,
            Lookup::Found(i) => view_lines(final(lines)@) == view_lines(old(lines)@).update(
                i,
                enable_line(view_lines(old(lines)@)[i]),
            ) && r == Ok::<Change, ChangeError>(
                if view_lines(old(lines)@)[i] is Disabled {
                    Change::Enabled
                } else {
                    Change::AlreadyEnabled
                },
            ) && (view_lines(old(lines)@)[i] is Enabled ==> final(lines)@ == old(lines)@),
            Lookup::Ambiguous(c) => r matches Err(ChangeError::OccursMany(n)) && n == c
                && final(lines)@ == old(lines)@,
        },
{
    match locate(lines, package) {
        Ok((i, enabled)) => Ok(enable_found(lines, i, enabled)),
        Err(FindError::Missing) => Err(ChangeError::Missing),
        Err(FindError::OccursMany(n)) => Err(ChangeError::OccursMany(n)),
    }
}

/// Uncomments the package's record if there is one.
pub fn enable_line_if_present(package: &str, lines: &mut Vec<Line>) -> (r: Result<
    Change,
    ChangeError,
>)
    ensures
        match lookup(view_lines(old(lines)@), package@) {
            Lookup::NotFound => r == Ok::<Change, ChangeError>(Change::NotPresent) && final(lines)@
                == old(lines)@,
            Lookup::Found(i) => view_lines(final(lines)@) == view_lines(old(lines)@).update(
                i,
                enable_line(view_lines(old(lines)@)[i]),
            ) && r == Ok::<Change, ChangeError>(
                if view_lines(old(lines)@)[i] is Disabled {
                    Change::Enabled
                } else {
                    Change::AlreadyEnabled
                },
            ) && (view_lines(old(lines)@)[i] is Enabled ==> final(lines)@ == old(lines)@),
            Lookup::Ambiguous(c) => r matches Err(ChangeError::OccursMany(n)) && n == c
                && final(lines)@ == old(lines)@,
        },
{
    match locate(lines, package) {
        Ok((i, enabled)) => Ok(enable_found(lines, i, enabled)),
        Err(FindError::Missing) => Ok(Change::NotPresent),
        Err(FindError::OccursMany(n)) => Err(ChangeError::OccursMany(n)),
    }
}

/// The lines that are not records of package `name`, in order.
pub open spec fn without_package(ls: Seq<LineView>, name: Seq<char>) -> Seq<LineView> {
    ls.filter(|l: LineView| !refers_to(l, name))
}

proof fn lemma_without_package_push(ls: Seq<LineView>, l: LineView, name: Seq<char>)
    ensures
        without_package(ls.push(l), name) == if refers_to(l, name) {
            without_package(ls, name)
        } else {
            without_package(ls, name).push(l)
        },
{
    reveal(Seq::filter);
    assert(ls.push(l).drop_last() =~= ls);
    assert(ls.push(l).last() == l);
}

/// Removes every record of `package` (any number of them); returns how many.
pub fn delete_lines(package: &str, lines: &mut Vec<Line>) -> (removed: usize)
    ensures
        view_lines(final(lines)@) == without_package(view_lines(old(lines)@), package@),
        removed == old(lines)@.len() - final(lines)@.len(),
{
    let name = package.to_owned();
    let ghost vl = view_lines(lines@);
    let len = lines.len();
    let ghost n = lines@.len();
    let mut i: usize = 0;
    let ghost mut k: int = 0;
    let mut removed: usize = 0;
    while i < lines.len()
        invariant
            0 <= k <= vl.len(),
            vl.len() == n,
            name@ == package@,
            view_lines(lines@) == without_package(vl.take(k), package@) + vl.skip(k),
            i == without_package(vl.take(k), package@).len(),
            lines.len() - i == vl.len() - k,
            removed == n - lines.len(),
            n == len,
        decreases lines.len() - i,
    {
        let hit = match &lines[i] {
            Line::Enabled(e) => e.package.name == name,
            Line::Disabled(d) => d.package.name == name,
            Line::Ignored(_) => false,
        };
        let ghost before = lines@;
        proof {
            assert(vl.take(k + 1) =~= vl.take(k).push(vl[k]));
            lemma_without_package_push(vl.take(k), vl[k], package@);
            assert(vl.skip(k) =~= seq![vl[k]] + vl.skip(k + 1));
            assert(view_lines(before)[i as int] == vl[k]);
            assert(hit == refers_to(vl[k], package@));
        }
        if hit {
            lines.remove(i);
            removed = removed + 1;
            assert(view_lines(lines@) =~= view_lines(before).remove(i as int));
            assert(view_lines(lines@) =~= without_package(vl.take(k + 1), package@) + vl.skip(
                k + 1,
            ));
        } else {
            i = i + 1;
            assert(view_lines(lines@) =~= without_package(vl.take(k + 1), package@) + vl.skip(
                k + 1,
            ));
        }
        proof {
            k = k + 1;
        }
    }
    assert(vl.take(k) =~= vl);
    assert(vl.skip(k) =~= Seq::<LineView>::empty());
    assert(view_lines(lines@) =~= without_package(vl, package@));
    removed
}

} // verus!
