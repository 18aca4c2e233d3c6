//! `show`: one declaration's body (or one of its sections), resolved from an ID
//! argument against a scan, in one of four slices.
//!
//! The body of a Markdown home runs from its heading to the next declaration
//! heading; the body of a home in source code is the run of comment lines from its
//! heading, each with its comment markers stripped. Within it:
//! - `Full` is all of it;
//! - `Lead` stops at the first section heading;
//! - `Brief` is the heading and the first paragraph after it;
//! - `Toc` is the lead, then a blank line and one line per section
//!   (`<indent><path> <title>`, two spaces per level below the first).
//!
//! A section slice runs from the section's heading to the next heading of the same
//! or a higher level, and is cut the same way. An e2e case shows its command, its
//! expected exit status and its fixtures.
use vstd::prelude::*;
use crate::api::{self, ShowFormat, ShowMode, ShowOpts};
use crate::checker::{self, groups_view};
use crate::grammar::{self, Grammar};
use crate::comment_blocks::{self, strip_comment_tokens, strip_comment_tokens_exec};
use crate::model::{self, Config, Declaration, Findings};
use crate::queries::{self, json_escape, json_opt};
use crate::rewrite;
use crate::scanner;
use crate::text::{self, chars_of, decimal, string_from_chars};
use crate::tree::SourceFile;

verus! {

/// A line that starts (after whitespace) with a comment marker.
pub open spec fn comment_line(line: Seq<char>) -> bool {
    comment_blocks::first_token_from(text::trim_start(line), 0) is Some
}

fn comment_line_exec(line: &[char]) -> (r: bool)
    ensures
        r == comment_line(line@),
{
    let t = scanner::trim_start_chars(line);
    comment_blocks::first_token_exec(t.as_slice()).is_some()
}

// ---------------------------------------------------------------- the body of a declaration

/// A line as shown: as is in Markdown, as prose in source code.
pub open spec fn shown(md: bool, l: Seq<char>) -> Seq<char> {
    if md {
        l
    } else {
        strip_comment_tokens(l)
    }
}

pub open spec fn blank(l: Seq<char>) -> bool {
    text::trim(l).len() == 0
}

/// The first line at or after `i` that is a declaration heading, or the end.
pub open spec fn decl_line_from(g: grammar::GrammarV, prefixes: Seq<Seq<char>>, md: bool, ls: Seq<Seq<char>>, i: int) -> int
    decreases ls.len() - i,
{
    if i < 0 || i >= ls.len() {
        ls.len() as int
    } else if grammar::declaration_at(g, ls[i], prefixes, md) is Some {
        i
    } else {
        decl_line_from(g, prefixes, md, ls, i + 1)
    }
}

/// The first line in `[i, e)` that is not a comment line, or `e`.
pub open spec fn comment_run_end(ls: Seq<Seq<char>>, i: int, e: int) -> int
    decreases e - i,
{
    if i < 0 || i >= e || i >= ls.len() {
        e
    } else if !comment_line(ls[i]) {
        i
    } else {
        comment_run_end(ls, i + 1, e)
    }
}

/// Where the body starting at heading line `a` ends.
pub open spec fn body_end(g: grammar::GrammarV, prefixes: Seq<Seq<char>>, md: bool, ls: Seq<Seq<char>>, a: int) -> int {
    let de = decl_line_from(g, prefixes, md, ls, a + 1);
    if md {
        de
    } else {
        comment_run_end(ls, a, de)
    }
}

/// The least `line - 1` of the first `k` sections strictly inside `(lo, hi)` (with
/// a heading level at most `max`, when given), or `hi`.
pub open spec fn next_heading(secs: Seq<(Seq<char>, Seq<char>, usize, usize)>, lo: int, hi: int, max: Option<usize>, k: int) -> int
    decreases k,
{
    if k <= 0 || k > secs.len() {
        hi
    } else {
        let rest = next_heading(secs, lo, hi, max, k - 1);
        let e = secs[k - 1];
        let at = line_index(e.2);
        if lo < at && at < rest && (match max {
            Some(m) => e.3 <= m,
            None => true,
        }) {
            at
        } else {
            rest
        }
    }
}

/// Section heading `e` ends a slice whose own heading has level `max` (any heading
/// ends a lead, where `max` is `None`).
pub open spec fn ends_slice(e: (Seq<char>, Seq<char>, usize, usize), max: Option<usize>) -> bool {
    match max {
        Some(m) => e.3 <= m,
        None => true,
    }
}

proof fn lemma_next_heading_ends(secs: Seq<(Seq<char>, Seq<char>, usize, usize)>, lo: int, hi: int, max: Option<usize>, k: int)
    requires
        0 <= k <= secs.len(),
    ensures
        next_heading(secs, lo, hi, max, k) <= hi,
        forall|i: int|
            0 <= i < k && lo < line_index(#[trigger] secs[i].2) < next_heading(secs, lo, hi, max, k) ==> !ends_slice(secs[i], max),
        next_heading(secs, lo, hi, max, k) == hi || exists|i: int|
            0 <= i < k && lo < line_index(#[trigger] secs[i].2) && line_index(secs[i].2) == next_heading(secs, lo, hi, max, k)
                && ends_slice(secs[i], max),
    decreases k,
{
    if k > 0 {
        lemma_next_heading_ends(secs, lo, hi, max, k - 1);
        let rest = next_heading(secs, lo, hi, max, k - 1);
        let r = next_heading(secs, lo, hi, max, k);
        assert forall|i: int| 0 <= i < k && lo < line_index(#[trigger] secs[i].2) < r implies !ends_slice(secs[i], max) by {
            if i < k - 1 {
                assert(r <= rest);
            }
        }
        if r != hi && r != rest {
            assert(line_index(secs[k - 1].2) == r);
        }
    }
}

/// A section shown in full runs from its heading to the first later section
/// heading of the same or a higher level (a level at most its own), else to the
/// end of the declaration's body: no section heading of level at most the
/// section's own lies strictly inside the slice.
pub proof fn lemma_section_slice_stops_at_peer(
    g: grammar::GrammarV,
    prefixes: Seq<Seq<char>>,
    md: bool,
    ls: Seq<Seq<char>>,
    home: model::DeclarationV,
    key: Seq<char>,
)
    requires
        scanner::section_index(home.sections, key, 0) is Some,
    ensures
        ({
            let secs = home.sections;
            let j = scanner::section_index(home.sections, key, 0)->0;
            let start = line_index(secs[j].2);
            let b = body_end(g, prefixes, md, ls, line_index(home.line));
            exists|end: int|
                {
                    &&& slice_of(g, prefixes, md, ls, home, Some(key), ShowMode::Full) == Some(
                        SliceV {
                            lines: shown_range(md, ls, start, end),
                            sections: toc_entries(secs, start, end, secs[j].3, secs.len() as int),
                        },
                    )
                    &&& end <= b
                    &&& forall|i: int|
                        0 <= i < secs.len() && start < line_index(#[trigger] secs[i].2) < end ==> secs[i].3 > secs[j].3
                    &&& end == b || exists|i: int|
                        0 <= i < secs.len() && line_index(#[trigger] secs[i].2) == end && start < end && secs[i].3 <= secs[j].3
                }
        }),
{
    let secs = home.sections;
    let j = scanner::section_index(home.sections, key, 0)->0;
    let start = line_index(secs[j].2);
    let b = body_end(g, prefixes, md, ls, line_index(home.line));
    lemma_section_index_in_range(secs, key, 0);
    lemma_next_heading_ends(secs, start, b, Some(secs[j].3), secs.len() as int);
    let end = next_heading(secs, start, b, Some(secs[j].3), secs.len() as int);
    assert forall|i: int| 0 <= i < secs.len() && start < line_index(#[trigger] secs[i].2) < end implies secs[i].3 > secs[j].3 by {
        assert(!ends_slice(secs[i], Some(secs[j].3)));
    }
    assert(slice_of(g, prefixes, md, ls, home, Some(key), ShowMode::Full) == Some(
        SliceV {
            lines: shown_range(md, ls, start, end),
            sections: toc_entries(secs, start, end, secs[j].3, secs.len() as int),
        },
    ));
}

proof fn lemma_section_index_in_range(secs: Seq<(Seq<char>, Seq<char>, usize, usize)>, key: Seq<char>, i: int)
    requires
        0 <= i,
    ensures
        scanner::section_index(secs, key, i) matches Some(j) ==> i <= j < secs.len(),
    decreases secs.len() - i,
{
    if i < secs.len() && secs[i].0 != key {
        lemma_section_index_in_range(secs, key, i + 1);
    }
}

/// The first line in `[i, e)` that is (or is not, by `want_blank`) blank when shown.
pub open spec fn find_blankness(md: bool, ls: Seq<Seq<char>>, i: int, e: int, want_blank: bool) -> int
    decreases e - i,
{
    if i < 0 || i >= e || i >= ls.len() {
        e
    } else if blank(shown(md, ls[i])) == want_blank {
        i
    } else {
        find_blankness(md, ls, i + 1, e, want_blank)
    }
}

/// A section's title as shown in a section map: its anchor text without the
/// leading section number.
pub open spec fn shown_title(path: Seq<char>, anchor: Seq<char>) -> Seq<char> {
    let lead = scanner::without_dots(path) + seq![' '];
    if text::starts_with(anchor, lead) {
        anchor.subrange(lead.len() as int, anchor.len() as int)
    } else {
        anchor
    }
}

/// The section map lines of a slice: `<indent><path> <title>` per section inside
/// `(start, end)`, and `(path, title, depth)` per section.
pub open spec fn toc_entries(secs: Seq<(Seq<char>, Seq<char>, usize, usize)>, start: int, end: int, base: usize, k: int) -> Seq<(Seq<char>, Seq<char>, nat)>
    decreases k,
{
    if k <= 0 || k > secs.len() {
        Seq::empty()
    } else {
        let prev = toc_entries(secs, start, end, base, k - 1);
        let e = secs[k - 1];
        if start < line_index(e.2) && line_index(e.2) < end {
            prev.push((e.0, shown_title(e.0, e.1), if e.3 > base { (e.3 - base) as nat } else { 0 }))
        } else {
            prev
        }
    }
}

pub open spec fn toc_line(t: (Seq<char>, Seq<char>, nat)) -> Seq<char> {
    let indent: nat = if t.2 > 1 { (t.2 - 1) as nat } else { 0 };
    Seq::new(2 * indent, |i: int| ' ') + t.0 + seq![' '] + t.1
}

/// What one slice shows: its lines and its section map.
pub ghost struct SliceV {
    pub lines: Seq<Seq<char>>,
    pub sections: Seq<(Seq<char>, Seq<char>, nat)>,
}

pub open spec fn shown_range(md: bool, ls: Seq<Seq<char>>, a: int, b: int) -> Seq<Seq<char>> {
    if a < 0 || b <= a || b > ls.len() {
        Seq::empty()
    } else {
        Seq::new((b - a) as nat, |i: int| shown(md, ls[a + i]))
    }
}

/// The 0-based index of 1-based line `l` (line 0 counts as the first).
pub open spec fn line_index(l: usize) -> int {
    if l == 0 {
        0
    } else {
        l - 1
    }
}

/// The slice of a declaration's home text: `None` when the section does not exist.
pub open spec fn slice_of(g: grammar::GrammarV, prefixes: Seq<Seq<char>>, md: bool, ls: Seq<Seq<char>>, home: model::DeclarationV, section: Option<Seq<char>>, mode: ShowMode) -> Option<SliceV> {
    let a = line_index(home.line);
    let b = body_end(g, prefixes, md, ls, a);
    let secs = home.sections;
    let range = match section {
        None => Some((a, b, home.heading_level)),
        Some(key) => match scanner::section_index(secs, key, 0) {
            Some(j) => {
                let e = secs[j];
                let s = line_index(e.2);
                Some((s, next_heading(secs, s, b, Some(e.3), secs.len() as int), e.3))
            },
            None => None,
        },
    };
    match range {
        None => None,
        Some((start, end, base)) => {
            let lead_end = next_heading(secs, start, end, None, secs.len() as int);
            let entries = toc_entries(secs, start, end, base, secs.len() as int);
            Some(
                match mode {
                    ShowMode::Full => SliceV { lines: shown_range(md, ls, start, end), sections: entries },
                    ShowMode::Lead => SliceV { lines: shown_range(md, ls, start, lead_end), sections: entries },
                    ShowMode::Brief => {
                        let p = find_blankness(md, ls, start + 1, end, false);
                        let q = find_blankness(md, ls, p, end, true);
                        SliceV { lines: shown_range(md, ls, start, q), sections: entries }
                    },
                    ShowMode::Toc => SliceV {
                        lines: shown_range(md, ls, start, lead_end) + if entries.len() == 0 {
                            Seq::empty()
                        } else {
                            seq![Seq::empty()] + Seq::new(entries.len(), |i: int| toc_line(entries[i]))
                        },
                        sections: entries,
                    },
                },
            )
        },
    }
}

fn line_index_exec(l: usize) -> (r: usize)
    ensures
        r == line_index(l),
{
    if l == 0 {
        0
    } else {
        l - 1
    }
}

proof fn lemma_decl_line_from(g: grammar::GrammarV, prefixes: Seq<Seq<char>>, md: bool, ls: Seq<Seq<char>>, i: int)
    requires
        0 <= i,
    ensures
        decl_line_from(g, prefixes, md, ls, i) <= ls.len(),
    decreases ls.len() - i,
{
    if i < ls.len() && grammar::declaration_at(g, ls[i], prefixes, md) is None {
        lemma_decl_line_from(g, prefixes, md, ls, i + 1);
    }
}

proof fn lemma_comment_run_end(ls: Seq<Seq<char>>, i: int, e: int)
    requires
        0 <= i,
    ensures
        comment_run_end(ls, i, e) <= e,
        i <= e ==> i <= comment_run_end(ls, i, e),
    decreases e - i,
{
    if i < e && i < ls.len() && comment_line(ls[i]) {
        lemma_comment_run_end(ls, i + 1, e);
    }
}

proof fn lemma_next_heading(secs: Seq<(Seq<char>, Seq<char>, usize, usize)>, lo: int, hi: int, max: Option<usize>, k: int)
    ensures
        next_heading(secs, lo, hi, max, k) <= hi,
        next_heading(secs, lo, hi, max, k) == hi || lo < next_heading(secs, lo, hi, max, k),
    decreases k,
{
    if 0 < k <= secs.len() {
        lemma_next_heading(secs, lo, hi, max, k - 1);
    }
}

proof fn lemma_find_blankness(md: bool, ls: Seq<Seq<char>>, i: int, e: int, want: bool)
    requires
        0 <= i,
    ensures
        find_blankness(md, ls, i, e, want) <= e || find_blankness(md, ls, i, e, want) == e,
        i <= e ==> i <= find_blankness(md, ls, i, e, want) <= e,
    decreases e - i,
{
    if i < e && i < ls.len() && blank(shown(md, ls[i])) != want {
        lemma_find_blankness(md, ls, i + 1, e, want);
    }
}

fn shown_exec(md: bool, l: &[char]) -> (r: Vec<char>)
    ensures
        r@ == shown(md, l@),
{
    if md {
        text::slice_range(l, 0, l.len())
    } else {
        strip_comment_tokens_exec(l)
    }
}

fn blank_exec(l: &[char]) -> (r: bool)
    ensures
        r == blank(l@),
{
    let t = scanner::trim_chars(l);
    t.len() == 0
}

fn shown_range_exec(md: bool, ls: &Vec<Vec<char>>, a: usize, b: usize) -> (r: Vec<Vec<char>>)
    ensures
        text::views(r@) == shown_range(md, text::views(ls@), a as int, b as int),
{
    let ghost lv = text::views(ls@);
    let mut out: Vec<Vec<char>> = Vec::new();
    if b <= a || b > ls.len() {
        assert(text::views(out@) =~= Seq::empty());
        return out;
    }
    let mut i: usize = a;
    while i < b
        invariant
            a <= i <= b <= ls@.len(),
            lv == text::views(ls@),
            text::views(out@) =~= Seq::new((i - a) as nat, |m: int| shown(md, lv[a + m])),
        decreases b - i,
    {
        let ghost before = out@;
        out.push(shown_exec(md, ls[i].as_slice()));
        assert(text::views(out@) =~= text::views(before).push(shown(md, lv[i as int])));
        i = i + 1;
    }
    out
}

fn next_heading_exec(secs: &Vec<(String, model::SectionInfo)>, lo: usize, hi: usize, max: Option<usize>) -> (r: usize)
    ensures
        r as int == next_heading(model::section_views(secs@), lo as int, hi as int, max, secs@.len() as int),
{
    let ghost sv = model::section_views(secs@);
    let mut best: usize = hi;
    let mut k: usize = 0;
    while k < secs.len()
        invariant
            k <= secs@.len(),
            sv == model::section_views(secs@),
            best as int == next_heading(sv, lo as int, hi as int, max, k as int),
        decreases secs@.len() - k,
    {
        let at = line_index_exec(secs[k].1.line);
        let lvl_ok = match max {
            Some(m) => secs[k].1.heading_level <= m,
            None => true,
        };
        assert(sv[k as int].2 == secs@[k as int].1.line && sv[k as int].3 == secs@[k as int].1.heading_level);
        if lo < at && at < best && lvl_ok {
            best = at;
        }
        k = k + 1;
    }
    best
}

fn shown_title_exec(path: &str, anchor: &str) -> (r: String)
    ensures
        r@ == shown_title(path@, anchor@),
{
    let pv = chars_of(path);
    let mut lead = scanner::remove_dots(pv.as_slice());
    lead.push(' ');
    assert(lead@ =~= scanner::without_dots(path@) + seq![' ']);
    let av = chars_of(anchor);
    if text::matches_at(av.as_slice(), 0, lead.as_slice()) {
        string_from_chars(text::slice_range(av.as_slice(), lead.len(), av.len()).as_slice())
    } else {
        string_from_chars(av.as_slice())
    }
}

fn toc_entries_exec(secs: &Vec<(String, model::SectionInfo)>, start: usize, end: usize, base: usize) -> (r: Vec<(String, String, usize)>)
    ensures
        Seq::new(r@.len(), |i: int| (r@[i].0@, r@[i].1@, r@[i].2 as nat)) == toc_entries(
            model::section_views(secs@),
            start as int,
            end as int,
            base,
            secs@.len() as int,
        ),
{
    let ghost sv = model::section_views(secs@);
    let mut out: Vec<(String, String, usize)> = Vec::new();
    let mut k: usize = 0;
    while k < secs.len()
        invariant
            k <= secs@.len(),
            sv == model::section_views(secs@),
            Seq::new(out@.len(), |i: int| (out@[i].0@, out@[i].1@, out@[i].2 as nat)) == toc_entries(sv, start as int, end as int, base, k as int),
        decreases secs@.len() - k,
    {
        let at = line_index_exec(secs[k].1.line);
        assert(sv[k as int] == (secs@[k as int].0@, secs@[k as int].1.title@, secs@[k as int].1.line, secs@[k as int].1.heading_level));
        if start < at && at < end {
            let lvl = secs[k].1.heading_level;
            let depth = if lvl > base {
                lvl - base
            } else {
                0
            };
            let ghost before = out@;
            let title = shown_title_exec(secs[k].0.as_str(), secs[k].1.title.as_str());
            out.push((secs[k].0.clone(), title, depth));
            assert(Seq::new(out@.len(), |i: int| (out@[i].0@, out@[i].1@, out@[i].2 as nat)) =~= Seq::new(
                before.len(),
                |i: int| (before[i].0@, before[i].1@, before[i].2 as nat),
            ).push((sv[k as int].0, shown_title(sv[k as int].0, sv[k as int].1), depth as nat)));
        }
        k = k + 1;
    }
    out
}

fn toc_line_exec(t: &(String, String, usize)) -> (r: Vec<char>)
    ensures
        r@ == toc_line((t.0@, t.1@, t.2 as nat)),
{
    let indent = if t.2 > 1 {
        t.2 - 1
    } else {
        0
    };
    let mut out: Vec<char> = Vec::new();
    let mut i: usize = 0;
    while i < indent
        invariant
            i <= indent,
            out@ =~= Seq::new(2 * i as nat, |m: int| ' '),
        decreases indent - i,
    {
        out.push(' ');
        out.push(' ');
        i = i + 1;
    }
    let a = chars_of(t.0.as_str());
    text::push_all(&mut out, a.as_slice());
    out.push(' ');
    let b = chars_of(t.1.as_str());
    text::push_all(&mut out, b.as_slice());
    assert(out@ =~= toc_line((t.0@, t.1@, t.2 as nat)));
    out
}

/// The slice a mode shows of a declaration's home text, as `slice_of` defines it:
/// the shown lines and the section map.
#[verifier::rlimit(40)]
pub fn slice_exec(g: &Grammar, prefixes: &Vec<Vec<char>>, md: bool, ls: &Vec<Vec<char>>, home: &Declaration, section: &Option<String>, mode: ShowMode) -> (r: Option<(Vec<Vec<char>>, Vec<(String, String, usize)>)>)
    requires
        g.wf(),
    ensures
        match (r, slice_of(g@, text::views(prefixes@), md, text::views(ls@), home@, model::opt_view(*section), mode)) {
            (Some((lines, secs)), Some(v)) => text::views(lines@) == v.lines && Seq::new(
                secs@.len(),
                |i: int| (secs@[i].0@, secs@[i].1@, secs@[i].2 as nat),
            ) == v.sections,
            (None, None) => true,
            _ => false,
        },
{
    let ghost lv = text::views(ls@);
    let ghost pv = text::views(prefixes@);
    let ghost sv = home@.sections;
    let a = line_index_exec(home.line);
    let mut de = ls.len();
    let mut i: usize = a + 1;
    proof {
        lemma_decl_line_from(g@, pv, md, lv, a + 1);
    }
    if a < ls.len() {
        while i < ls.len()
            invariant
                g.wf(),
                lv == text::views(ls@),
                pv == text::views(prefixes@),
                a + 1 <= i <= ls@.len(),
                decl_line_from(g@, pv, md, lv, (a + 1) as int) == decl_line_from(g@, pv, md, lv, i as int),
            ensures
                i < ls@.len() ==> grammar::declaration_at(g@, lv[i as int], pv, md) is Some,
                i <= ls@.len(),
                decl_line_from(g@, pv, md, lv, (a + 1) as int) == decl_line_from(g@, pv, md, lv, i as int),
            decreases ls@.len() - i,
        {
            assert(lv[i as int] == ls@[i as int]@);
            if g.declaration_at(ls[i].as_slice(), prefixes, md).is_some() {
                break;
            }
            i = i + 1;
        }
        de = i;
    } else {
        assert(decl_line_from(g@, pv, md, lv, (a + 1) as int) == lv.len());
    }
    assert(de as int == decl_line_from(g@, pv, md, lv, (a + 1) as int));
    assert(de <= ls@.len());
    let b = if md {
        de
    } else {
        let mut j: usize = a;
        proof {
            lemma_comment_run_end(lv, a as int, de as int);
        }
        while j < de && j < ls.len() && comment_line_exec(ls[j].as_slice())
            invariant
                a <= j,
                lv == text::views(ls@),
                comment_run_end(lv, a as int, de as int) == comment_run_end(lv, j as int, de as int),
            decreases de - j,
        {
            assert(lv[j as int] == ls@[j as int]@);
            j = j + 1;
        }
        proof {
            if j < de && j < ls@.len() {
                assert(lv[j as int] == ls@[j as int]@);
            }
        }
        if j < de {
            j
        } else {
            de
        }
    };
    assert(b as int == body_end(g@, pv, md, lv, a as int));
    let secs = &home.sections;
    let range: Option<(usize, usize, usize)> = match section {
        None => Some((a, b, home.heading_level)),
        Some(key) => {
            let mut j: usize = 0;
            let mut found: Option<usize> = None;
            while j < secs.len()
                invariant_except_break
                    found is None,
                    scanner::section_index(sv, key@, 0) == scanner::section_index(sv, key@, j as int),
                invariant
                    j <= secs@.len(),
                    sv == model::section_views(secs@),
                ensures
                    match found {
                        Some(x) => scanner::section_index(sv, key@, 0) == Some(x as int) && x < secs@.len(),
                        None => scanner::section_index(sv, key@, 0) is None,
                    },
                decreases secs@.len() - j,
            {
                assert(sv[j as int].0 == secs@[j as int].0@);
                if secs[j].0.eq(key) {
                    found = Some(j);
                    break;
                }
                j = j + 1;
            }
            match found {
                Some(x) => {
                    let s = line_index_exec(secs[x].1.line);
                    let lvl = secs[x].1.heading_level;
                    assert(sv[x as int] == (secs@[x as int].0@, secs@[x as int].1.title@, secs@[x as int].1.line, secs@[x as int].1.heading_level));
                    let e = next_heading_exec(secs, s, b, Some(lvl));
                    Some((s, e, lvl))
                },
                None => None,
            }
        },
    };
    match range {
        None => None,
        Some((start, end, base)) => {
            let lead_end = next_heading_exec(secs, start, end, None);
            let entries = toc_entries_exec(secs, start, end, base);
            let lines: Vec<Vec<char>> = match mode {
                ShowMode::Full => shown_range_exec(md, ls, start, end),
                ShowMode::Lead => shown_range_exec(md, ls, start, lead_end),
                ShowMode::Brief => {
                    let mut p: usize = start + 1;
                    proof {
                        lemma_find_blankness(md, lv, (start + 1) as int, end as int, false);
                    }
                    while p < end && p < ls.len() && blank_exec(shown_exec(md, ls[p].as_slice()).as_slice())
                        invariant
                            start + 1 <= p,
                            lv == text::views(ls@),
                            find_blankness(md, lv, (start + 1) as int, end as int, false) == find_blankness(md, lv, p as int, end as int, false),
                        decreases end - p,
                    {
                        assert(lv[p as int] == ls@[p as int]@);
                        p = p + 1;
                    }
                    proof {
                        if p < end && p < ls@.len() {
                            assert(lv[p as int] == ls@[p as int]@);
                        }
                    }
                    let pe = if p < end && p < ls.len() {
                        p
                    } else {
                        end
                    };
                    assert(pe as int == find_blankness(md, lv, (start + 1) as int, end as int, false));
                    let mut q: usize = pe;
                    while q < end && q < ls.len() && !blank_exec(shown_exec(md, ls[q].as_slice()).as_slice())
                        invariant
                            pe <= q,
                            lv == text::views(ls@),
                            find_blankness(md, lv, pe as int, end as int, true) == find_blankness(md, lv, q as int, end as int, true),
                        decreases end - q,
                    {
                        assert(lv[q as int] == ls@[q as int]@);
                        q = q + 1;
                    }
                    proof {
                        if q < end && q < ls@.len() {
                            assert(lv[q as int] == ls@[q as int]@);
                        }
                    }
                    let qe = if q < end && q < ls.len() {
                        q
                    } else {
                        end
                    };
                    assert(qe as int == find_blankness(md, lv, pe as int, end as int, true));
                    shown_range_exec(md, ls, start, qe)
                },
                ShowMode::Toc => {
                    let mut ls2 = shown_range_exec(md, ls, start, lead_end);
                    if entries.len() > 0 {
                        let ghost head = text::views(ls2@);
                        ls2.push(Vec::new());
                        let ghost ev = Seq::new(entries@.len(), |i: int| (entries@[i].0@, entries@[i].1@, entries@[i].2 as nat));
                        let mut k: usize = 0;
                        while k < entries.len()
                            invariant
                                k <= entries@.len(),
                                ev == Seq::new(entries@.len(), |i: int| (entries@[i].0@, entries@[i].1@, entries@[i].2 as nat)),
                                text::views(ls2@) =~= head + seq![Seq::<char>::empty()] + Seq::new(k as nat, |i: int| toc_line(ev[i])),
                            decreases entries@.len() - k,
                        {
                            let ghost before = ls2@;
                            ls2.push(toc_line_exec(&entries[k]));
                            assert(text::views(ls2@) =~= text::views(before).push(toc_line(ev[k as int])));
                            k = k + 1;
                        }
                    }
                    ls2
                },
            };
            Some((lines, entries))
        },
    }
}

// ---------------------------------------------------------------- resolving and rendering

/// One entry of a shown section map.
pub struct ShowSection {
    pub path: String,
    pub title: String,
    pub depth: usize,
}

/// What `show` returns: the body as printed, where the declaration stands, its
/// section map, and the JSON document when JSON was asked for.
pub struct ShowOutput {
    pub body: String,
    pub path: String,
    pub line: usize,
    pub sections: Vec<ShowSection>,
    pub json: Option<String>,
}

pub ghost struct ShowV {
    pub body: Seq<char>,
    pub path: Seq<char>,
    pub line: usize,
    pub sections: Seq<(Seq<char>, Seq<char>, nat)>,
    pub json: Option<Seq<char>>,
}

impl View for ShowOutput {
    type V = ShowV;

    open spec fn view(&self) -> ShowV {
        ShowV {
            body: self.body@,
            path: self.path@,
            line: self.line,
            sections: Seq::new(
                self.sections@.len(),
                |i: int| (self.sections@[i].path@, self.sections@[i].title@, self.sections@[i].depth as nat),
            ),
            json: model::opt_view(self.json),
        }
    }
}

/// Lines as printed: each followed by a newline.
pub open spec fn line_block(ls: Seq<Seq<char>>) -> Seq<char>
    decreases ls.len(),
{
    if ls.len() == 0 {
        Seq::empty()
    } else {
        line_block(ls.drop_last()) + ls.last() + seq!['\n']
    }
}

/// A signed integer in decimal.
pub open spec fn int_text(n: int) -> Seq<char> {
    if n < 0 {
        seq!['-'] + decimal((-n) as nat)
    } else {
        decimal(n as nat)
    }
}

/// The first `k` arguments, each after a space.
pub open spec fn args_text(args: Seq<Seq<char>>, k: int) -> Seq<char>
    decreases k,
{
    if k <= 0 || k > args.len() {
        Seq::empty()
    } else {
        args_text(args, k - 1) + seq![' '] + args[k - 1]
    }
}

/// What an e2e case shows: its ID, its command, its expected exit status and, when
/// it has any, its fixtures.
pub open spec fn e2e_lines(idt: Seq<char>, case: model::E2eCase) -> Seq<Seq<char>> {
    let args = model::str_views(case.args@);
    let head = seq![
        idt,
        "command: grund"@ + args_text(args, args.len() as int),
        "exit: "@ + int_text(case.expected_exit as int),
    ];
    if case.fixtures@.len() == 0 {
        head
    } else {
        head.push("fixtures: "@ + queries::join_comma_space(model::str_views(case.fixtures@)))
    }
}

/// The first file at or after `i` with path `path`.
pub open spec fn file_index_from(files: Seq<SourceFile>, path: Seq<char>, i: int) -> Option<int>
    decreases files.len() - i,
{
    if i < 0 || i >= files.len() {
        None
    } else if files[i].path@ == path {
        Some(i)
    } else {
        file_index_from(files, path, i + 1)
    }
}

pub open spec fn invalid_id_message(raw: Seq<char>, format: Seq<char>) -> Seq<char> {
    "invalid ID `"@ + raw + "`: expected the [id] format `"@ + format + "`"@
}

pub open spec fn section_conflict_message() -> Seq<char> {
    "--section cannot be combined with an inline section"@
}

pub open spec fn not_found_message(idt: Seq<char>) -> Seq<char> {
    "ID not found: "@ + idt
}

pub open spec fn section_missing_message(idt: Seq<char>, sep: Seq<char>, sec: Seq<char>) -> Seq<char> {
    "section not found: "@ + idt + sep + sec
}

pub open spec fn unread_message(shown_path: Seq<char>, why: Seq<char>) -> Seq<char> {
    shown_path + ": "@ + why
}

pub open spec fn not_scanned() -> Seq<char> {
    "not among the scanned files"@
}

/// One entry of the JSON section map.
pub open spec fn section_json(t: (Seq<char>, Seq<char>, nat)) -> Seq<char> {
    "{\"path\":\""@ + json_escape(t.0) + "\",\"title\":\""@ + json_escape(t.1) + "\",\"depth\":"@ + decimal(
        t.2,
    ) + "}"@
}

/// The JSON document of a show; the section map is part of it in `Toc` mode.
pub open spec fn show_json(idt: Seq<char>, section: Option<Seq<char>>, body: Seq<char>, shown_path: Seq<char>, line: usize, toc: bool, secs: Seq<(Seq<char>, Seq<char>, nat)>) -> Seq<char> {
    "{\"id\":\""@ + json_escape(idt) + "\",\"section\":"@ + json_opt(section) + ",\"body\":\""@ + json_escape(body)
        + "\",\"path\":\""@ + json_escape(shown_path) + "\",\"line\":"@ + decimal(line as nat) + (if toc {
        ",\"sections\":["@ + queries::join_records(Seq::new(secs.len(), |i: int| section_json(secs[i]))) + "]"@
    } else {
        Seq::empty()
    }) + "}"@
}

/// The lines and section map a declaration shows, or the error message.
pub open spec fn shown_lines(c: Config, gv: grammar::GrammarV, files: Seq<SourceFile>, d: Declaration, idt: Seq<char>, section: Option<Seq<char>>, mode: ShowMode) -> Result<(Seq<Seq<char>>, Seq<(Seq<char>, Seq<char>, nat)>), Seq<char>> {
    let missing = match section {
        Some(sec) => section_missing_message(idt, gv.sep, sec),
        None => Seq::empty(),
    };
    match d.e2e_case {
        Some(case) => match section {
            Some(_) => Err(missing),
            None => Ok((e2e_lines(idt, case), Seq::empty())),
        },
        None => {
            let shown_path = checker::display_path(c.root@, d.file@);
            match file_index_from(files, d.file@, 0) {
                None => Err(unread_message(shown_path, not_scanned())),
                Some(k) => match files[k].content {
                    Err(why) => Err(unread_message(shown_path, why@)),
                    Ok(t) => match slice_of(
                        gv,
                        model::str_views(c.comment_prefixes@),
                        scanner::extension(d.file@) == Some(scanner::md_ext()),
                        text::spec_lines(t@),
                        d@,
                        section,
                        mode,
                    ) {
                        None => Err(missing),
                        Some(v) => Ok((v.lines, v.sections)),
                    },
                },
            }
        },
    }
}

pub open spec fn ambiguous_message(idt: Seq<char>, sites: Seq<char>) -> Seq<char> {
    "ambiguous ID: "@ + idt + " (declared at "@ + sites + ")"@
}

/// What `show` gives for an ID argument: a scan that could not read a file fails
/// with the first such file; otherwise the ID (and section) is parsed against the
/// grammar, its group found, and the declaration that stands for it shown. An ID
/// with more than one home (stubs aside) is ambiguous.
pub open spec fn show_of(c: Config, gv: grammar::GrammarV, f: Findings, files: Seq<SourceFile>, errs: Seq<(Seq<char>, Seq<char>)>, raw: Seq<char>, opts: ShowOpts) -> Result<ShowV, Seq<char>> {
    if errs.len() > 0 {
        Err(unread_message(checker::display_path(c.root@, errs[0].0), errs[0].1))
    } else {
    match grammar::parse_id_arg(gv, raw) {
        None => Err(invalid_id_message(raw, c.id_format@)),
        Some((id, inline)) => if opts.section is Some && inline is Some {
            Err(section_conflict_message())
        } else {
            let section = match opts.section {
                Some(s) => Some(s@),
                None => inline,
            };
            let idt = grammar::render_id(gv, id);
            match checker::group_index(groups_view(f.declarations@), id) {
                None => Err(not_found_message(idt)),
                Some(k) => {
                    let ds = f.declarations@[k].decls@;
                    let hs = checker::home_sites(c.root@, model::decl_views(ds));
                    if hs.len() > 1 {
                        Err(ambiguous_message(idt, checker::sites_text(c.root@, checker::sorted_sites(hs))))
                    } else {
                    match checker::report_index(c.root@, model::decl_views(ds)) {
                        None => Err(not_found_message(idt)),
                        Some(j) => {
                            let d = ds[j];
                            match shown_lines(c, gv, files, d, idt, section, opts.mode) {
                                Err(m) => Err(m),
                                Ok((ls, secs)) => {
                                    let raw_body = line_block(ls);
                                    let body = if opts.format == ShowFormat::Markdown {
                                        raw_body
                                    } else {
                                        rewrite::flatten_body(gv, raw_body, c.marker@)
                                    };
                                    Ok(
                                        ShowV {
                                            body,
                                            path: d.file@,
                                            line: d.line,
                                            sections: secs,
                                            json: if opts.format == ShowFormat::Json {
                                                Some(
                                                    show_json(
                                                        idt,
                                                        section,
                                                        body,
                                                        checker::display_path(c.root@, d.file@),
                                                        d.line,
                                                        opts.mode == ShowMode::Toc,
                                                        secs,
                                                    ),
                                                )
                                            } else {
                                                None
                                            },
                                        },
                                    )
                                },
                            }
                        },
                    }
                    }
                },
            }
        },
    }
    }
}

fn line_block_exec(ls: &Vec<Vec<char>>) -> (r: String)
    ensures
        r@ == line_block(text::views(ls@)),
{
    let ghost lv = text::views(ls@);
    let mut out: Vec<char> = Vec::new();
    let mut i: usize = 0;
    while i < ls.len()
        invariant
            i <= ls@.len(),
            lv == text::views(ls@),
            out@ == line_block(lv.subrange(0, i as int)),
        decreases ls@.len() - i,
    {
        text::push_all(&mut out, ls[i].as_slice());
        out.push('\n');
        assert(lv.subrange(0, i + 1).drop_last() =~= lv.subrange(0, i as int));
        assert(out@ =~= line_block(lv.subrange(0, i + 1)));
        i = i + 1;
    }
    assert(lv.subrange(0, ls@.len() as int) =~= lv);
    string_from_chars(out.as_slice())
}

fn int_text_exec(n: i32) -> (r: Vec<char>)
    ensures
        r@ == int_text(n as int),
{
    if n < 0 {
        let m: i64 = -(n as i64);
        let mut out = vec!['-'];
        let d = text::decimal_chars(m as usize);
        text::push_all(&mut out, d.as_slice());
        out
    } else {
        text::decimal_chars(n as usize)
    }
}

fn e2e_lines_exec(idt: &Vec<char>, case: &model::E2eCase) -> (r: Vec<Vec<char>>)
    ensures
        text::views(r@) == e2e_lines(idt@, *case),
{
    let ghost av = model::str_views(case.args@);
    let mut cmd = chars_of("command: grund");
    let ghost pre = cmd@;
    let mut i: usize = 0;
    while i < case.args.len()
        invariant
            i <= case.args@.len(),
            av == model::str_views(case.args@),
            cmd@ == pre + args_text(av, i as int),
        decreases case.args@.len() - i,
    {
        cmd.push(' ');
        let a = chars_of(case.args[i].as_str());
        text::push_all(&mut cmd, a.as_slice());
        assert(cmd@ =~= pre + (args_text(av, i as int) + seq![' '] + av[i as int]));
        i = i + 1;
    }
    let mut ex = chars_of("exit: ");
    let n = int_text_exec(case.expected_exit);
    text::push_all(&mut ex, n.as_slice());
    let mut out: Vec<Vec<char>> = Vec::new();
    out.push(idt.clone());
    out.push(cmd);
    out.push(ex);
    let ghost head = text::views(out@);
    if case.fixtures.len() > 0 {
        let ghost fv = model::str_views(case.fixtures@);
        let mut fx = chars_of("fixtures: ");
        let ghost fpre = fx@;
        let mut j: usize = 0;
        while j < case.fixtures.len()
            invariant
                j <= case.fixtures@.len(),
                fv == model::str_views(case.fixtures@),
                fx@ == fpre + queries::join_comma_space(fv.subrange(0, j as int)),
            decreases case.fixtures@.len() - j,
        {
            if j > 0 {
                fx.push(',');
                fx.push(' ');
            }
            let a = chars_of(case.fixtures[j].as_str());
            text::push_all(&mut fx, a.as_slice());
            proof {
                let pr = fv.subrange(0, j + 1);
                assert(pr.drop_last() =~= fv.subrange(0, j as int));
                if j > 0 {
                    assert(fx@ =~= fpre + (queries::join_comma_space(fv.subrange(0, j as int)) + seq![',', ' '] + fv[j as int]));
                } else {
                    assert(fx@ =~= fpre + fv[j as int]);
                }
            }
            j = j + 1;
        }
        assert(fv.subrange(0, case.fixtures@.len() as int) =~= fv);
        out.push(fx);
        assert(text::views(out@) =~= head.push(fx@));
    }
    assert(head =~= seq![idt@, pre + args_text(av, av.len() as int), "exit: "@ + int_text(case.expected_exit as int)]);
    out
}

fn file_index_exec(files: &Vec<SourceFile>, path: &String) -> (r: Option<usize>)
    ensures
        match r {
            Some(k) => file_index_from(files@, path@, 0) == Some(k as int) && k < files@.len(),
            None => file_index_from(files@, path@, 0) is None,
        },
{
    let mut k: usize = 0;
    while k < files.len()
        invariant
            k <= files@.len(),
            file_index_from(files@, path@, 0) == file_index_from(files@, path@, k as int),
        decreases files@.len() - k,
    {
        if files[k].path.eq(path) {
            return Some(k);
        }
        k = k + 1;
    }
    None
}

fn section_json_exec(out: &mut Vec<char>, t: &ShowSection)
    ensures
        final(out)@ == old(out)@ + section_json((t.path@, t.title@, t.depth as nat)),
{
    let ghost before = out@;
    queries::push_str(out, "{\"path\":\"");
    let a = queries::json_escape_exec(t.path.as_str());
    queries::push_str(out, a.as_str());
    queries::push_str(out, "\",\"title\":\"");
    let b = queries::json_escape_exec(t.title.as_str());
    queries::push_str(out, b.as_str());
    queries::push_str(out, "\",\"depth\":");
    queries::push_decimal(out, t.depth);
    queries::push_str(out, "}");
    assert(out@ =~= before + section_json((t.path@, t.title@, t.depth as nat)));
}

pub open spec fn section_entry_views(v: Seq<ShowSection>) -> Seq<(Seq<char>, Seq<char>, nat)> {
    Seq::new(v.len(), |i: int| (v[i].path@, v[i].title@, v[i].depth as nat))
}

fn missing_message_exec(g: &Grammar, idt: &Vec<char>, section: &Option<String>) -> (r: String)
    ensures
        r@ == match model::opt_view(*section) {
            Some(sec) => section_missing_message(idt@, g@.sep, sec),
            None => Seq::empty(),
        },
{
    match section {
        Some(sec) => {
            let mut m = String::from_str("section not found: ");
            text::append_chars(&mut m, idt.as_slice());
            text::append_chars(&mut m, g.sep.as_slice());
            m.append(sec.as_str());
            m
        },
        None => String::new(),
    }
}

fn shown_lines_exec(config: &Config, g: &Grammar, files: &Vec<SourceFile>, d: &Declaration, idt: &Vec<char>, section: &Option<String>, mode: ShowMode) -> (r: Result<(Vec<Vec<char>>, Vec<ShowSection>), String>)
    requires
        g.wf(),
    ensures
        match (r, shown_lines(*config, g@, files@, *d, idt@, model::opt_view(*section), mode)) {
            (Ok((ls, ss)), Ok((lv, sv))) => text::views(ls@) == lv && section_entry_views(ss@) == sv,
            (Err(m), Err(e)) => m@ == e,
            _ => false,
        },
{
    let missing = missing_message_exec(g, idt, section);
    match &d.e2e_case {
        Some(case) => {
            if section.is_some() {
                return Err(missing);
            }
            let ls = e2e_lines_exec(idt, case);
            let ss: Vec<ShowSection> = Vec::new();
            assert(section_entry_views(ss@) =~= Seq::empty());
            Ok((ls, ss))
        },
        None => {
            let shown_path = checker::display_path_exec(config.root.as_str(), d.file.as_str());
            match file_index_exec(files, &d.file) {
                None => {
                    let mut m = shown_path;
                    m.append(": ");
                    m.append("not among the scanned files");
                    Err(m)
                },
                Some(k) => match &files[k].content {
                    Err(why) => {
                        let mut m = shown_path;
                        m.append(": ");
                        m.append(why.as_str());
                        Err(m)
                    },
                    Ok(t) => {
                        let prefixes = scanner::chars_list(&config.comment_prefixes);
                        let pv = chars_of(d.file.as_str());
                        let mdx = vec!['m', 'd'];
                        assert(mdx@ =~= scanner::md_ext());
                        let md = scanner::has_extension(pv.as_slice(), mdx.as_slice());
                        let tv = chars_of(t.as_str());
                        let ls = text::split_lines(tv.as_slice());
                        match slice_exec(g, &prefixes, md, &ls, d, section, mode) {
                            None => Err(missing),
                            Some((lines, secs)) => {
                                let mut ss: Vec<ShowSection> = Vec::new();
                                let mut i: usize = 0;
                                while i < secs.len()
                                    invariant
                                        i <= secs@.len(),
                                        section_entry_views(ss@) =~= Seq::new(
                                            i as nat,
                                            |m: int| (secs@[m].0@, secs@[m].1@, secs@[m].2 as nat),
                                        ),
                                    decreases secs@.len() - i,
                                {
                                    let ghost before = ss@;
                                    ss.push(ShowSection { path: secs[i].0.clone(), title: secs[i].1.clone(), depth: secs[i].2 });
                                    assert(section_entry_views(ss@) =~= section_entry_views(before).push(
                                        (secs@[i as int].0@, secs@[i as int].1@, secs@[i as int].2 as nat),
                                    ));
                                    i = i + 1;
                                }
                                assert(section_entry_views(ss@) =~= Seq::new(
                                    secs@.len(),
                                    |m: int| (secs@[m].0@, secs@[m].1@, secs@[m].2 as nat),
                                ));
                                Ok((lines, ss))
                            },
                        }
                    },
                },
            }
        },
    }
}

fn show_json_exec(idt: &Vec<char>, section: &Option<String>, body: &String, shown_path: &String, line: usize, toc: bool, secs: &Vec<ShowSection>) -> (r: String)
    ensures
        r@ == show_json(idt@, model::opt_view(*section), body@, shown_path@, line, toc, section_entry_views(secs@)),
{
    let mut out: Vec<char> = Vec::new();
    queries::push_str(&mut out, "{\"id\":\"");
    let is = string_from_chars(idt.as_slice());
    let ie = queries::json_escape_exec(is.as_str());
    queries::push_str(&mut out, ie.as_str());
    queries::push_str(&mut out, "\",\"section\":");
    queries::push_json_opt(&mut out, section);
    queries::push_str(&mut out, ",\"body\":\"");
    let be = queries::json_escape_exec(body.as_str());
    queries::push_str(&mut out, be.as_str());
    queries::push_str(&mut out, "\",\"path\":\"");
    let pe = queries::json_escape_exec(shown_path.as_str());
    queries::push_str(&mut out, pe.as_str());
    queries::push_str(&mut out, "\",\"line\":");
    queries::push_decimal(&mut out, line);
    let ghost head = out@;
    let ghost sv = section_entry_views(secs@);
    let ghost recs = Seq::new(sv.len(), |i: int| section_json(sv[i]));
    if toc {
        queries::push_str(&mut out, ",\"sections\":[");
        let ghost pre = out@;
        let mut i: usize = 0;
        while i < secs.len()
            invariant
                i <= secs@.len(),
                sv == section_entry_views(secs@),
                recs == Seq::new(sv.len(), |m: int| section_json(sv[m])),
                out@ == pre + queries::join_records(recs.subrange(0, i as int)),
            decreases secs@.len() - i,
        {
            if i > 0 {
                out.push(',');
            }
            let ghost mid = out@;
            section_json_exec(&mut out, &secs[i]);
            proof {
                let pr = recs.subrange(0, i + 1);
                assert(pr.drop_last() =~= recs.subrange(0, i as int));
                assert(recs[i as int] == section_json(sv[i as int]));
                if i > 0 {
                    assert(out@ =~= pre + (queries::join_records(recs.subrange(0, i as int)) + seq![','] + recs[i as int]));
                } else {
                    assert(out@ =~= pre + recs[i as int]);
                }
            }
            i = i + 1;
        }
        assert(recs.subrange(0, secs@.len() as int) =~= recs);
        queries::push_str(&mut out, "]");
    }
    queries::push_str(&mut out, "}");
    assert(out@ =~= show_json(idt@, model::opt_view(*section), body@, shown_path@, line, toc, sv));
    string_from_chars(out.as_slice())
}

/// Shows one declaration of a scanned tree. `id_arg` is `<ID>` or
/// `<ID><sep><section>`; `files` are the files the scan read, where the home's text
/// is found. The result is exactly `show_of`: an invalid argument, a section given
/// twice, an unknown ID, an unreadable home and a missing section are errors with
/// their messages; otherwise the slice of the declaration's body that the mode
/// asks for, flattened unless the format is Markdown, with its JSON document when
/// the format is JSON.
pub fn show(
    config: &Config,
    g: &Grammar,
    findings: &Findings,
    files: &Vec<SourceFile>,
    scan_errors: &Vec<(String, String)>,
    id_arg: &str,
    opts: &ShowOpts,
) -> (r: Result<ShowOutput, String>)
    requires
        g.wf(),
    ensures
        match (r, show_of(*config, g@, *findings, files@, api::pair_views(scan_errors@), id_arg@, *opts)) {
            (Ok(o), Ok(v)) => o@ == v,
            (Err(m), Err(e)) => m@ == e,
            _ => false,
        },
{
    if scan_errors.len() > 0 {
        let mut m = checker::display_path_exec(config.root.as_str(), scan_errors[0].0.as_str());
        m.append(": ");
        m.append(scan_errors[0].1.as_str());
        return Err(m);
    }
    let raw = chars_of(id_arg);
    let (id, inline) = match g.parse_id_arg(raw.as_slice()) {
        Some(p) => p,
        None => {
            let mut m = String::from_str("invalid ID `");
            m.append(id_arg);
            m.append("`: expected the [id] format `");
            m.append(config.id_format.as_str());
            m.append("`");
            return Err(m);
        },
    };
    if opts.section.is_some() && inline.is_some() {
        return Err(String::from_str("--section cannot be combined with an inline section"));
    }
    let section: Option<String> = match &opts.section {
        Some(s) => Some(s.clone()),
        None => inline,
    };
    let idt = g.render_id(&id);
    let k = match checker::find_group(findings, &id) {
        Some(k) => k,
        None => {
            let mut m = String::from_str("ID not found: ");
            text::append_chars(&mut m, idt.as_slice());
            return Err(m);
        },
    };
    let ds = &findings.declarations[k].decls;
    proof {
        assert(groups_view(findings.declarations@)[k as int].1 == model::decl_views(ds@));
    }
    let hs = checker::home_sites_exec(config.root.as_str(), ds);
    if hs.len() > 1 {
        let sorted = checker::sort_sites(&hs);
        let st = checker::sites_text_exec(config.root.as_str(), &sorted);
        let mut m = String::from_str("ambiguous ID: ");
        text::append_chars(&mut m, idt.as_slice());
        m.append(" (declared at ");
        m.append(st.as_str());
        m.append(")");
        return Err(m);
    }
    let j = match checker::report_index_exec(config.root.as_str(), ds) {
        Some(j) => j,
        None => {
            let mut m = String::from_str("ID not found: ");
            text::append_chars(&mut m, idt.as_slice());
            return Err(m);
        },
    };
    let d = &ds[j];
    let (ls, secs) = match shown_lines_exec(config, g, files, d, &idt, &section, opts.mode) {
        Ok(p) => p,
        Err(m) => {
            return Err(m);
        },
    };
    let raw_body = line_block_exec(&ls);
    let body = match opts.format {
        ShowFormat::Markdown => raw_body,
        _ => rewrite::flatten_cross_ref_links(g, raw_body.as_str(), config.marker.as_str()),
    };
    let json = match opts.format {
        ShowFormat::Json => {
            let dp = checker::display_path_exec(config.root.as_str(), d.file.as_str());
            let toc = match opts.mode {
                ShowMode::Toc => true,
                _ => false,
            };
            Some(show_json_exec(&idt, &section, &body, &dp, d.line, toc, &secs))
        },
        _ => None,
    };
    let out = ShowOutput { body, path: d.file.clone(), line: d.line, sections: secs, json };
    assert(out@.sections =~= section_entry_views(secs@));
    Ok(out)
}


// ---------------------------------------------------------------- workspaces

/// One project `show` can read from in a workspace: its alias, its settings and
/// grammar, and what its scan found.
pub struct ShowProject {
    pub alias: String,
    pub config: Config,
    pub grammar: Grammar,
    pub findings: Findings,
    pub files: Vec<SourceFile>,
    pub scan_errors: Vec<(String, String)>,
}

/// An ID argument split at its first `/`: the project alias before it, the ID after.
pub open spec fn split_alias(raw: Seq<char>) -> (Option<Seq<char>>, Seq<char>) {
    match text::find_from(raw, seq!['/'], 0) {
        Some(k) => if 0 <= k < raw.len() {
            (Some(raw.subrange(0, k)), raw.subrange(k + 1, raw.len() as int))
        } else {
            (None, raw)
        },
        None => (None, raw),
    }
}

/// The first project (from `i` on) with alias `a`.
pub open spec fn project_index_from(ps: Seq<ShowProject>, a: Seq<char>, i: int) -> Option<int>
    decreases ps.len() - i,
{
    if i < 0 || i >= ps.len() {
        None
    } else if ps[i].alias@ == a {
        Some(i)
    } else {
        project_index_from(ps, a, i + 1)
    }
}

pub open spec fn unknown_alias_message(a: Seq<char>) -> Seq<char> {
    "unknown project alias `"@ + a + "`"@
}

pub open spec fn no_current_project_message() -> Seq<char> {
    "unqualified ID requires a project alias when include_root = false"@
}

/// What `show` gives in a workspace: an `<alias>/<ID>` argument reads from the
/// project with that alias, an unqualified one from the current project (none when
/// the workspace root is not itself a project); then as `show_of` within it.
pub open spec fn show_in_workspace_of(ps: Seq<ShowProject>, current: Option<usize>, raw: Seq<char>, opts: ShowOpts) -> Result<ShowV, Seq<char>> {
    let (alias, rest) = split_alias(raw);
    let at = match alias {
        Some(a) => match project_index_from(ps, a, 0) {
            Some(k) => Ok(k),
            None => Err(unknown_alias_message(a)),
        },
        None => match current {
            Some(k) => Ok(k as int),
            None => Err(no_current_project_message()),
        },
    };
    match at {
        Err(m) => Err(m),
        Ok(k) => show_of(
            ps[k].config,
            ps[k].grammar@,
            ps[k].findings,
            ps[k].files@,
            api::pair_views(ps[k].scan_errors@),
            rest,
            opts,
        ),
    }
}

/// `show` in a workspace, as `show_in_workspace_of` defines it.
pub fn show_in_workspace(projects: &Vec<ShowProject>, current: Option<usize>, id_arg: &str, opts: &ShowOpts) -> (r: Result<ShowOutput, String>)
    requires
        forall|k: int| 0 <= k < projects@.len() ==> (#[trigger] projects@[k]).grammar.wf(),
        current matches Some(k) ==> k < projects@.len(),
    ensures
        match (r, show_in_workspace_of(projects@, current, id_arg@, *opts)) {
            (Ok(o), Ok(v)) => o@ == v,
            (Err(m), Err(e)) => m@ == e,
            _ => false,
        },
{
    let raw = chars_of(id_arg);
    let (alias, rest): (Option<Vec<char>>, Vec<char>) = match text::find_char(raw.as_slice(), '/', 0) {
        Some(k) => {
            proof {
                text::lemma_find_from_bounds(raw@, seq!['/'], 0);
            }
            let n = raw.len();
            assert(k < n);
            let head = text::slice_range(raw.as_slice(), 0, k);
            let tail = text::slice_range(raw.as_slice(), k + 1, n);
            (Some(head), tail)
        },
        None => {
            assert(raw@.subrange(0, raw@.len() as int) =~= raw@);
            (None, text::slice_range(raw.as_slice(), 0, raw.len()))
        },
    };
    let k: usize = match alias {
        Some(a) => {
            let av = string_from_chars(a.as_slice());
            let mut i: usize = 0;
            let mut found: Option<usize> = None;
            while i < projects.len()
                invariant_except_break
                    found is None,
                invariant
                    i <= projects@.len(),
                    av@ == a@,
                    project_index_from(projects@, a@, 0) == project_index_from(projects@, a@, i as int),
                ensures
                    match found {
                        Some(j) => project_index_from(projects@, a@, 0) == Some(j as int) && j < projects@.len(),
                        None => project_index_from(projects@, a@, 0) is None,
                    },
                decreases projects@.len() - i,
            {
                if model::string_eq(&projects[i].alias, &av) {
                    found = Some(i);
                    break;
                }
                i = i + 1;
            }
            match found {
                Some(j) => j,
                None => {
                    let mut m = String::from_str("unknown project alias `");
                    m.append(av.as_str());
                    m.append("`");
                    return Err(m);
                },
            }
        },
        None => match current {
            Some(c) => c,
            None => {
                return Err(String::from_str("unqualified ID requires a project alias when include_root = false"));
            },
        },
    };
    let p = &projects[k];
    let rs = string_from_chars(rest.as_slice());
    show(&p.config, &p.grammar, &p.findings, &p.files, &p.scan_errors, rs.as_str(), opts)
}

} // verus!
