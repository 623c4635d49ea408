//! Laws that tie the classifier to rendering.
use vstd::prelude::*;
use crate::lines::render_text;
use crate::parser::{
    parse_text_spec, split_lines, first_decl, in_class, is_name_char, lemma_run, lemma_run_exact, match_decl, parse_line_spec,
    record_at, run_end, CharClass,
};
use crate::types::{assign_text, render_line, render_record, LineView, RecordView};

verus! {

/// What `first_decl` finds: the first matching position, if any.
pub proof fn lemma_first_decl(s: Seq<char>, i: int)
    requires
        0 <= i,
    ensures
        first_decl(s, i) matches Some(p) ==> i <= p < s.len() && match_decl(s, p) is Some && (
        forall|q: int| i <= q < p ==> (#[trigger] match_decl(s, q)) is None),
        first_decl(s, i) is None ==> forall|q: int| i <= q ==> (#[trigger] match_decl(s, q)) is None,
    decreases s.len() - i,
{
    if i < s.len() {
        lemma_first_decl(s, i + 1);
    }
    assert forall|q: int| s.len() <= q implies (#[trigger] match_decl(s, q)) is None by {
        assert(run_end(s, q, CharClass::Name) == q);
    }
}

/// `first_decl` from `i` finds `p` when `p` is the first match at or after `i`.
proof fn lemma_first_decl_is(s: Seq<char>, i: int, p: int)
    requires
        0 <= i <= p < s.len(),
        match_decl(s, p) is Some,
        forall|q: int| i <= q < p ==> (#[trigger] match_decl(s, q)) is None,
    ensures
        first_decl(s, i) == Some(p),
    decreases p - i,
{
    if i < p {
        lemma_first_decl_is(s, i + 1, p);
    }
}

/// A run that covers all of `[i, k)` ends where the run from `k` ends.
proof fn lemma_run_through(s: Seq<char>, i: int, k: int, cls: CharClass)
    requires
        0 <= i <= k <= s.len(),
        forall|j: int| i <= j < k ==> in_class(#[trigger] s[j], cls),
    ensures
        run_end(s, i, cls) == run_end(s, k, cls),
    decreases k - i,
{
    if i < k {
        lemma_run_through(s, i + 1, k, cls);
    }
}

/// Where two texts agree before `k`, and the run in `t` from `i <= k` stops
/// before `k`, the run in `s` stops at the same place; where it reaches `k`,
/// the run in `s` does too.
proof fn lemma_run_agree(s: Seq<char>, t: Seq<char>, i: int, k: int, cls: CharClass)
    requires
        0 <= i <= k <= s.len(),
        k <= t.len(),
        forall|j: int| 0 <= j < k ==> s[j] == t[j],
    ensures
        run_end(t, i, cls) < k ==> run_end(s, i, cls) == run_end(t, i, cls),
        run_end(t, i, cls) >= k ==> forall|j: int| i <= j < k ==> in_class(#[trigger] s[j], cls),
{
    lemma_run(t, i, cls);
    let r = run_end(t, i, cls);
    if r < k {
        assert forall|j: int| i <= j < r implies in_class(#[trigger] s[j], cls) by {
            assert(in_class(t[j], cls));
        }
        lemma_run_exact(s, i, r, cls);
    } else {
        assert forall|j: int| i <= j < k implies in_class(#[trigger] s[j], cls) by {
            assert(in_class(t[j], cls));
        }
    }
}

/// Before the first match of `s`, nothing matches in a text `t` that agrees
/// with `s` before `p` and holds a name character at `p`.
proof fn lemma_no_earlier_match(s: Seq<char>, t: Seq<char>, p: int, q: int)
    requires
        0 <= q < p < s.len(),
        p < t.len(),
        forall|j: int| 0 <= j < p ==> s[j] == t[j],
        is_name_char(t[p]),
        match_decl(s, p) is Some,
        match_decl(s, q) is None,
    ensures
        match_decl(t, q) is None,
{
    let (ep, vsp, vep) = match_decl(s, p)->Some_0;
    let ap = run_end(s, ep, CharClass::Blank);
    let bp = run_end(s, ap + 1, CharClass::Blank);
    lemma_run(s, p, CharClass::Name);
    lemma_run(s, ep, CharClass::Blank);
    lemma_run(s, ap + 1, CharClass::Blank);
    if match_decl(t, q) is Some {
        let e = run_end(t, q, CharClass::Name);
        lemma_run_agree(s, t, q, p, CharClass::Name);
        lemma_run(t, q, CharClass::Name);
        if e >= p {
            lemma_run_through(s, q, p, CharClass::Name);
            assert(match_decl(s, q) is Some);
        } else {
            let a = run_end(t, e, CharClass::Blank);
            lemma_run(t, e, CharClass::Blank);
            lemma_run_agree(s, t, e, p, CharClass::Blank);
            if a >= p {
                lemma_run_exact(t, e, p, CharClass::Blank);
            }
            let b = run_end(t, a + 1, CharClass::Blank);
            lemma_run(t, a + 1, CharClass::Blank);
            lemma_run_agree(s, t, a + 1, p, CharClass::Blank);
            if b >= p {
                lemma_run_exact(t, a + 1, p, CharClass::Blank);
            }
            let c = run_end(t, b + 1, CharClass::NotQuote);
            lemma_run(t, b + 1, CharClass::NotQuote);
            lemma_run_agree(s, t, b + 1, p, CharClass::NotQuote);
            if c >= p {
                assert forall|j: int| b + 1 <= j < bp implies in_class(
                    #[trigger] s[j],
                    CharClass::NotQuote,
                ) by {
                    if j >= p {
                        if j < ep {
                            assert(is_name_char(s[j]));
                        } else if j < ap {
                            assert(in_class(s[j], CharClass::Blank));
                        } else if j > ap {
                            assert(in_class(s[j], CharClass::Blank));
                        }
                    }
                }
                lemma_run_exact(s, b + 1, bp, CharClass::NotQuote);
            }
            assert(match_decl(s, q) is Some);
        }
    }
}

/// The declaration of a rendered record matches where the record's prefix
/// ends, and reads back as that record.
proof fn lemma_rendered_record(r: RecordView, s: Seq<char>, p: int)
    requires
        0 <= p < s.len(),
        match_decl(s, p) is Some,
        r == record_at(s, p),
    ensures
        match_decl(render_record(r), p) is Some,
        record_at(render_record(r), p) == r,
        is_name_char(render_record(r)[p]),
        forall|j: int| 0 <= j < p ==> s[j] == #[trigger] render_record(r)[j],
{
    let (e, vs, ve) = match_decl(s, p)->Some_0;
    let a = run_end(s, e, CharClass::Blank);
    lemma_run(s, p, CharClass::Name);
    lemma_run(s, e, CharClass::Blank);
    lemma_run(s, a + 1, CharClass::Blank);
    lemma_run(s, vs, CharClass::NotQuote);
    let t = render_record(r);
    let n = r.package.name.len() as int;
    let v = r.package.version.len() as int;
    assert(n == e - p);
    assert(v == ve - vs);
    assert(t =~= r.pre + r.package.name + assign_text() + r.package.version + seq!['"'] + r.post);
    assert(forall|j: int| 0 <= j < p ==> t[j] == s[j]);
    assert(forall|j: int| p <= j < p + n ==> t[j] == s[j]);
    assert(t[p + n] == ' ' && t[p + n + 1] == '=' && t[p + n + 2] == ' ' && t[p + n + 3] == '"');
    assert(forall|j: int| p + n + 4 <= j < p + n + 4 + v ==> t[j] == s[j - p - n - 4 + vs]);
    assert(t[p + n + 4 + v] == '"');
    lemma_run_exact(t, p, p + n, CharClass::Name);
    lemma_run_exact(t, p + n, p + n + 1, CharClass::Blank);
    lemma_run_exact(t, p + n + 2, p + n + 3, CharClass::Blank);
    assert forall|j: int| p + n + 4 <= j < p + n + 4 + v implies in_class(
        #[trigger] t[j],
        CharClass::NotQuote,
    ) by {
        assert(in_class(s[j - p - n - 4 + vs], CharClass::NotQuote));
    }
    lemma_run_exact(t, p + n + 4, p + n + 4 + v, CharClass::NotQuote);
    assert(match_decl(t, p) == Some((p + n, p + n + 4, p + n + 4 + v)));
    assert(record_at(t, p).pre =~= r.pre);
    assert(record_at(t, p).package.name =~= r.package.name);
    assert(record_at(t, p).package.version =~= r.package.version);
    assert(record_at(t, p).post =~= r.post);
}

/// A line in which the declaration grammar matches nowhere is Ignored, and
/// renders back as it was.
pub proof fn lemma_ignored_round_trip(s: Seq<char>)
    requires
        has_no_decl(s),
    ensures
        parse_line_spec(s) == LineView::Ignored(s),
        render_line(parse_line_spec(s)) == s,
{
    lemma_first_decl(s, 0);
    let w = run_end(s, 0, CharClass::Blank);
    lemma_run(s, 0, CharClass::Blank);
    if w == s.len() {
        assert(run_end(s, w, CharClass::Name) == w);
    }
}

/// Rendering an Enabled or Disabled record and classifying the text gives
/// back the same record; so rendering it again gives the same text.
pub proof fn lemma_record_round_trip(s: Seq<char>)
    requires
        !(parse_line_spec(s) is Ignored),
    ensures
        parse_line_spec(render_line(parse_line_spec(s))) == parse_line_spec(s),
        render_line(parse_line_spec(render_line(parse_line_spec(s)))) == render_line(
            parse_line_spec(s),
        ),
{
    let w = run_end(s, 0, CharClass::Blank);
    lemma_run(s, 0, CharClass::Blank);
    lemma_first_decl(s, 0);
    let p = if match_decl(s, w) is Some {
        w
    } else {
        first_decl(s, 0)->Some_0
    };
    if p == s.len() {
        assert(run_end(s, p, CharClass::Name) == p);
    }
    let r = record_at(s, p);
    let t = render_record(r);
    assert(render_line(parse_line_spec(s)) == t);
    lemma_rendered_record(r, s, p);
    let wt = run_end(t, 0, CharClass::Blank);
    lemma_run(t, 0, CharClass::Blank);
    lemma_run_agree(s, t, 0, p, CharClass::Blank);
    if wt > p {
        assert(in_class(t[p], CharClass::Blank));
    }
    if match_decl(s, w) is Some {
        lemma_run_exact(t, 0, p, CharClass::Blank);
        assert(parse_line_spec(t) == LineView::Enabled(r));
    } else {
        assert forall|q: int| 0 <= q < p implies (#[trigger] match_decl(t, q)) is None by {
            lemma_no_earlier_match(s, t, p, q);
        }
        if wt == p {
            lemma_run_exact(s, 0, p, CharClass::Blank);
        }
        lemma_first_decl_is(t, 0, p);
        assert(parse_line_spec(t) == LineView::Disabled(r));
    }
}

/// The lines, each followed by `\n`.
pub open spec fn join_lines(ls: Seq<Seq<char>>) -> Seq<char>
    decreases ls.len(),
{
    if ls.len() == 0 {
        Seq::empty()
    } else {
        join_lines(ls.drop_last()) + ls.last() + seq!['\n']
    }
}

/// Whether the declaration grammar matches nowhere in the line.
pub open spec fn has_no_decl(l: Seq<char>) -> bool {
    forall|p: int| 0 <= p < l.len() ==> (#[trigger] match_decl(l, p)) is None
}

proof fn lemma_ignored_lines_render(ls: Seq<Seq<char>>)
    requires
        forall|i: int| 0 <= i < ls.len() ==> has_no_decl(#[trigger] ls[i]),
    ensures
        render_text(ls.map_values(|l: Seq<char>| parse_line_spec(l))) == join_lines(ls),
    decreases ls.len(),
{
    if ls.len() > 0 {
        let rest = ls.drop_last();
        lemma_ignored_lines_render(rest);
        let parsed = ls.map_values(|l: Seq<char>| parse_line_spec(l));
        assert(parsed.drop_last() =~= rest.map_values(|l: Seq<char>| parse_line_spec(l)));
        assert(has_no_decl(ls[ls.len() - 1]));
        lemma_ignored_round_trip(ls.last());
    }
}

/// A text in whose lines the declaration grammar matches nowhere renders back
/// as its lines, each ended by a single `\n`: the text itself up to how its
/// lines were terminated.
pub proof fn lemma_ignored_text_round_trip(s: Seq<char>)
    requires
        forall|i: int| 0 <= i < split_lines(s).len() ==> has_no_decl(#[trigger] split_lines(s)[i]),
    ensures
        render_text(parse_text_spec(s)) == join_lines(split_lines(s)),
{
    lemma_ignored_lines_render(split_lines(s));
}

} // verus!
