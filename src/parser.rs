//! The line grammar and the classifier of lines and texts.
//!
//! ```text
//! name   := (lowercase-letter | digit | '_')+
//! assign := space* '=' space*
//! value  := '"' (any char but '"')+ '"'
//! decl   := name assign value
//! ```
use vstd::prelude::*;
use crate::types::{Disabled, Enabled, Line, LineView, Package, PackageView, RecordView};

verus! {

pub open spec fn is_name_char(c: char) -> bool {
    c == '_' || ('a' <= c && c <= 'z') || ('0' <= c && c <= '9')
}

/// The blanks that may surround `=` and lead a line: space and tab.
pub open spec fn is_space(c: char) -> bool {
    c == ' ' || c == '\t'
}

/// The classes of characters whose runs the grammar reads.
#[derive(Clone, Copy, PartialEq, Eq, Structural)]
pub enum CharClass {
    /// Characters of a package name.
    Name,
    /// Space and tab.
    Blank,
    /// Anything but `"`.
    NotQuote,
}

pub open spec fn in_class(c: char, cls: CharClass) -> bool {
    match cls {
        CharClass::Name => is_name_char(c),
        CharClass::Blank => is_space(c),
        CharClass::NotQuote => c != '"',
    }
}

/// End of the run of characters of class `cls` that starts at `i`.
pub open spec fn run_end(s: Seq<char>, i: int, cls: CharClass) -> int
    decreases s.len() - i,
{
    if 0 <= i < s.len() && in_class(s[i], cls) {
        run_end(s, i + 1, cls)
    } else {
        i
    }
}

/// A run ends within the text, at or after its start; every character in it
/// is of the class, and the one that ends it (if any) is not.
pub proof fn lemma_run(s: Seq<char>, i: int, cls: CharClass)
    requires
        0 <= i <= s.len(),
    ensures
        i <= run_end(s, i, cls) <= s.len(),
        forall|j: int| i <= j < run_end(s, i, cls) ==> in_class(#[trigger] s[j], cls),
        run_end(s, i, cls) < s.len() ==> !in_class(s[run_end(s, i, cls)], cls),
    decreases s.len() - i,
{
    if i < s.len() {
        lemma_run(s, i + 1, cls);
    }
}

/// A run is determined by the characters it covers and the one after it.
pub proof fn lemma_run_exact(s: Seq<char>, i: int, j: int, cls: CharClass)
    requires
        0 <= i <= j <= s.len(),
        forall|k: int| i <= k < j ==> in_class(#[trigger] s[k], cls),
        j == s.len() || !in_class(s[j], cls),
    ensures
        run_end(s, i, cls) == j,
    decreases j - i,
{
    if i < j {
        lemma_run_exact(s, i + 1, j, cls);
    }
}

/// Whether `decl` matches at position `p`; if so, the end of the name, and
/// the start and end of the version (the end is the closing quote).
pub open spec fn match_decl(s: Seq<char>, p: int) -> Option<(int, int, int)> {
    let e = run_end(s, p, CharClass::Name);
    let a = run_end(s, e, CharClass::Blank);
    let b = run_end(s, a + 1, CharClass::Blank);
    let c = run_end(s, b + 1, CharClass::NotQuote);
    if p < e && a < s.len() && s[a] == '=' && b < s.len() && s[b] == '"' && b + 1 < c && c
        < s.len() {
        Some((e, b + 1, c))
    } else {
        None
    }
}

/// The first position at or after `p` where `decl` matches.
pub open spec fn first_decl(s: Seq<char>, p: int) -> Option<int>
    decreases s.len() - p,
{
    if 0 <= p < s.len() {
        if match_decl(s, p) is Some {
            Some(p)
        } else {
            first_decl(s, p + 1)
        }
    } else {
        None
    }
}

/// The record made of the declaration that matches at `p`.
pub open spec fn record_at(s: Seq<char>, p: int) -> RecordView {
    let (e, vs, ve) = match_decl(s, p)->Some_0;
    RecordView {
        pre: s.subrange(0, p),
        package: PackageView { name: s.subrange(p, e), version: s.subrange(vs, ve) },
        post: s.subrange(ve + 1, s.len() as int),
    }
}

/// The classification of one line: Enabled where `decl` follows the leading
/// blanks, else Disabled at the first place where `decl` matches, else Ignored.
pub open spec fn parse_line_spec(s: Seq<char>) -> LineView {
    let w = run_end(s, 0, CharClass::Blank);
    if match_decl(s, w) is Some {
        LineView::Enabled(record_at(s, w))
    } else if first_decl(s, 0) is Some {
        LineView::Disabled(record_at(s, first_decl(s, 0)->Some_0))
    } else {
        LineView::Ignored(s)
    }
}

/// Drops one `\r` at the end of a line terminated by `\r\n`.
pub open spec fn strip_cr(l: Seq<char>) -> Seq<char> {
    if l.len() > 0 && l.last() == '\r' {
        l.drop_last()
    } else {
        l
    }
}

/// The lines of `s` from position `i` on, the current line having begun at
/// `start`: split at each `\n`, a `\r` before it dropped; a last line without
/// terminator is kept as it is, and an empty text has no lines.
pub open spec fn split_lines_from(s: Seq<char>, start: int, i: int) -> Seq<Seq<char>>
    decreases s.len() - i,
{
    if i < 0 || i >= s.len() {
        if 0 <= start < s.len() {
            seq![s.subrange(start, s.len() as int)]
        } else {
            Seq::empty()
        }
    } else if s[i] == '\n' {
        seq![strip_cr(s.subrange(start, i))] + split_lines_from(s, i + 1, i + 1)
    } else {
        split_lines_from(s, start, i + 1)
    }
}

pub open spec fn split_lines(s: Seq<char>) -> Seq<Seq<char>> {
    split_lines_from(s, 0, 0)
}

pub open spec fn view_lines(lines: Seq<Line>) -> Seq<LineView> {
    lines.map_values(|l: Line| l@)
}

pub(crate) proof fn lemma_view_lines_push(rs: Seq<Line>, l: Line)
    ensures
        view_lines(rs.push(l)) == view_lines(rs).push(l@),
{
    assert(view_lines(rs.push(l)) =~= view_lines(rs).push(l@));
}

proof fn lemma_parse_all_push(done: Seq<Seq<char>>, l: Seq<char>)
    ensures
        done.push(l).map_values(|x: Seq<char>| parse_line_spec(x)) == done.map_values(
            |x: Seq<char>| parse_line_spec(x),
        ).push(parse_line_spec(l)),
{
    assert(done.push(l).map_values(|x: Seq<char>| parse_line_spec(x)) =~= done.map_values(
        |x: Seq<char>| parse_line_spec(x),
    ).push(parse_line_spec(l)));
}

/// The classification of every line of a text, in order.
pub open spec fn parse_text_spec(s: Seq<char>) -> Seq<LineView> {
    split_lines(s).map_values(|l: Seq<char>| parse_line_spec(l))
}

/// Whether `c` may stand in a package name.
pub fn alnum_(c: char) -> (r: bool)
    ensures
        r == is_name_char(c),
{
    (c == '_') || ('a' <= c && c <= 'z') || ('0' <= c && c <= '9')
}

/// Whether `s` is a package name: one or more name characters.
pub open spec fn is_name(s: Seq<char>) -> bool {
    s.len() > 0 && forall|i: int| 0 <= i < s.len() ==> is_name_char(#[trigger] s[i])
}

/// Whether `name` may be used as a package name.
pub fn is_valid_name(name: &str) -> (r: bool)
    ensures
        r == is_name(name@),
{
    let cs = chars_of(name);
    let mut i: usize = 0;
    while i < cs.len()
        invariant
            i <= cs.len(),
            cs@ == name@,
            forall|j: int| 0 <= j < i ==> is_name_char(#[trigger] cs@[j]),
        decreases cs.len() - i,
    {
        if !alnum_(cs[i]) {
            return false;
        }
        i = i + 1;
    }
    cs.len() > 0
}

fn is_in_class(c: char, cls: CharClass) -> (r: bool)
    ensures
        r == in_class(c, cls),
{
    match cls {
        CharClass::Name => alnum_(c),
        CharClass::Blank => c == ' ' || c == '\t',
        CharClass::NotQuote => c != '"',
    }
}

/// The characters of `s`, in order.
pub fn chars_of(s: &str) -> (r: Vec<char>)
    ensures
        r@ == s@,
{
    let mut r: Vec<char> = Vec::new();
    for c in it: s.chars()
        invariant
            r@ == it.seq().take(it.index() as int),
    {
        r.push(c);
    }
    r
}

fn scan(cs: &Vec<char>, i: usize, cls: CharClass) -> (r: usize)
    requires
        i <= cs.len(),
    ensures
        r == run_end(cs@, i as int, cls),
        i <= r <= cs.len(),
{
    let mut j = i;
    while j < cs.len() && is_in_class(cs[j], cls)
        invariant
            i <= j <= cs.len(),
            run_end(cs@, j as int, cls) == run_end(cs@, i as int, cls),
        decreases cs.len() - j,
    {
        j = j + 1;
    }
    j
}

/// Matches `decl` at position `p`.
fn match_at(cs: &Vec<char>, p: usize) -> (r: Option<(usize, usize, usize)>)
    requires
        p <= cs.len(),
    ensures
        match r {
            Some((e, vs, ve)) => match_decl(cs@, p as int) == Some((e as int, vs as int, ve as int))
                && ve < cs.len(),
            None => match_decl(cs@, p as int) is None,
        },
{
    let e = scan(cs, p, CharClass::Name);
    if e == p {
        return None;
    }
    let a = scan(cs, e, CharClass::Blank);
    if a >= cs.len() || cs[a] != '=' {
        return None;
    }
    let b = scan(cs, a + 1, CharClass::Blank);
    if b >= cs.len() || cs[b] != '"' {
        return None;
    }
    let c = scan(cs, b + 1, CharClass::NotQuote);
    if c <= b + 1 || c >= cs.len() {
        return None;
    }
    Some((e, b + 1, c))
}

/// The first position where `decl` matches, with the match.
fn find_decl(cs: &Vec<char>) -> (r: Option<(usize, (usize, usize, usize))>)
    ensures
        match r {
            Some((p, (e, vs, ve))) => first_decl(cs@, 0) == Some(p as int) && match_decl(cs@, p as int)
                == Some((e as int, vs as int, ve as int)) && ve < cs.len(),
            None => first_decl(cs@, 0) is None,
        },
{
    let mut p: usize = 0;
    while p < cs.len()
        invariant
            p <= cs.len(),
            first_decl(cs@, 0) == first_decl(cs@, p as int),
        decreases cs.len() - p,
    {
        match match_at(cs, p) {
            Some(m) => {
                return Some((p, m));
            },
            None => {},
        }
        p = p + 1;
    }
    None
}

/// Builds the record of the declaration matched at `p`.
fn record_parts(input: &str, cs: &Vec<char>, p: usize, e: usize, vs: usize, ve: usize) -> (r: (
    String,
    Package,
    String,
))
    requires
        cs@ == input@,
        ve < cs.len(),
        match_decl(cs@, p as int) == Some((e as int, vs as int, ve as int)),
    ensures
        (RecordView { pre: r.0@, package: r.1@, post: r.2@ }) == record_at(input@, p as int),
{
    let n = cs.len();
    proof {
        lemma_run(cs@, p as int, CharClass::Name);
        lemma_run(cs@, e as int, CharClass::Blank);
        let a = run_end(cs@, e as int, CharClass::Blank);
        lemma_run(cs@, a + 1, CharClass::Blank);
        lemma_run(cs@, vs as int, CharClass::NotQuote);
    }
    let pre = input.substring_char(0, p).to_owned();
    let name = input.substring_char(p, e);
    let version = input.substring_char(vs, ve);
    let post = input.substring_char(ve + 1, n).to_owned();
    (pre, Package::new(name, version), post)
}

/// Classifies one line (given without its terminator).
pub fn parse_line(input: &str) -> (r: Line)
    ensures
        r@ == parse_line_spec(input@),
{
    let cs = chars_of(input);
    let w = scan(&cs, 0, CharClass::Blank);
    match match_at(&cs, w) {
        Some((e, vs, ve)) => {
            let (pre, package, post) = record_parts(input, &cs, w, e, vs, ve);
            Line::Enabled(Enabled { pre, package, post })
        },
        None => match find_decl(&cs) {
            Some((p, (e, vs, ve))) => {
                let (pre, package, post) = record_parts(input, &cs, p, e, vs, ve);
                Line::Disabled(Disabled { pre, package, post })
            },
            None => Line::Ignored(input.to_owned()),
        },
    }
}

/// Classifies every line of a text, in order. Lines end at `\n` or `\r\n`;
/// the last one may have no terminator.
pub fn parse_text(text: &str) -> (r: Vec<Line>)
    ensures
        view_lines(r@) == parse_text_spec(text@),
{
    let cs = chars_of(text);
    let n = cs.len();
    let mut r: Vec<Line> = Vec::new();
    let ghost mut done: Seq<Seq<char>> = Seq::empty();
    let mut start: usize = 0;
    let mut i: usize = 0;
    while i < n
        invariant
            n == cs.len(),
            cs@ == text@,
            start <= i <= n,
            split_lines(cs@) == done + split_lines_from(cs@, start as int, i as int),
            view_lines(r@) == done.map_values(|l: Seq<char>| parse_line_spec(l)),
        decreases n - i,
    {
        if cs[i] == '\n' {
            let end = if i > start && cs[i - 1] == '\r' {
                i - 1
            } else {
                i
            };
            let line = text.substring_char(start, end);
            assert(line@ == strip_cr(cs@.subrange(start as int, i as int)));
            let parsed = parse_line(line);
            proof {
                assert(done + split_lines_from(cs@, start as int, i as int) =~= done.push(line@)
                    + split_lines_from(cs@, i + 1, i + 1));
                lemma_view_lines_push(r@, parsed);
                lemma_parse_all_push(done, line@);
                done = done.push(line@);
            }
            r.push(parsed);
            start = i + 1;
        }
        i = i + 1;
    }
    if start < n {
        let line = text.substring_char(start, n);
        let parsed = parse_line(line);
        proof {
            assert(done + split_lines_from(cs@, start as int, i as int) =~= done.push(line@));
            lemma_view_lines_push(r@, parsed);
            lemma_parse_all_push(done, line@);
            done = done.push(line@);
        }
        r.push(parsed);
    } else {
        assert(done + split_lines_from(cs@, start as int, i as int) =~= done);
    }
    r
}

} // verus!
