//! The read-only queries over a scan: `refs` (who cites an ID), `cover` (what each
//! file cites) and `list` (every declared ID), with their text and JSON lines.
use vstd::prelude::*;
use crate::checker::{self, display_path, group_index, groups_view};
use crate::grammar::{self, Grammar};
use crate::model::{self, Citation, Config, Declaration, Findings, Id, KindConfig};
use crate::order::{self, KeyV, SortKey};
use crate::text::{self, chars_of, decimal, string_from_chars};

verus! {

// ---------------------------------------------------------------- JSON strings

/// Four lowercase hex digits of a code point below `0x100`: `00XX`.
pub open spec fn hex_digit(d: u32) -> char {
    if d < 10 {
        ((d + 48) as u8) as char
    } else {
        ((d + 87) as u8) as char
    }
}

/// A Unicode control character (general category `Cc`), as `char::is_control`.
pub open spec fn is_control(c: char) -> bool {
    (c as u32) < 32 || (0x7f <= (c as u32) && (c as u32) <= 0x9f)
}

/// One character inside a JSON string literal.
pub open spec fn escape_char(c: char) -> Seq<char> {
    if c == '"' {
        seq!['\\', '"']
    } else if c == '\\' {
        seq!['\\', '\\']
    } else if c == '\n' {
        seq!['\\', 'n']
    } else if c == '\r' {
        seq!['\\', 'r']
    } else if c == '\t' {
        seq!['\\', 't']
    } else if is_control(c) {
        seq!['\\', 'u', '0', '0', hex_digit((c as u32) / 16), hex_digit((c as u32) % 16)]
    } else {
        seq![c]
    }
}

/// The contents of a JSON string literal holding `s`.
pub open spec fn json_escape(s: Seq<char>) -> Seq<char>
    decreases s.len(),
{
    if s.len() == 0 {
        Seq::empty()
    } else {
        json_escape(s.drop_last()) + escape_char(s.last())
    }
}

fn hex_digit_exec(d: u32) -> (r: char)
    requires
        d < 16,
    ensures
        r == hex_digit(d),
{
    if d < 10 {
        ((d + 48) as u8) as char
    } else {
        ((d + 87) as u8) as char
    }
}

pub fn json_escape_exec(s: &str) -> (r: String)
    ensures
        r@ == json_escape(s@),
{
    let cs = chars_of(s);
    let mut out: Vec<char> = Vec::new();
    let mut i: usize = 0;
    while i < cs.len()
        invariant
            i <= cs@.len(),
            cs@ == s@,
            out@ == json_escape(cs@.subrange(0, i as int)),
        decreases cs@.len() - i,
    {
        let c = cs[i];
        let ghost before = out@;
        if c == '"' {
            out.push('\\');
            out.push('"');
        } else if c == '\\' {
            out.push('\\');
            out.push('\\');
        } else if c == '\n' {
            out.push('\\');
            out.push('n');
        } else if c == '\r' {
            out.push('\\');
            out.push('r');
        } else if c == '\t' {
            out.push('\\');
            out.push('t');
        } else if (c as u32) < 32 || (0x7f <= (c as u32) && (c as u32) <= 0x9f) {
            let v = c as u32;
            out.push('\\');
            out.push('u');
            out.push('0');
            out.push('0');
            out.push(hex_digit_exec(v / 16));
            out.push(hex_digit_exec(v % 16));
        } else {
            out.push(c);
        }
        proof {
            let p = cs@.subrange(0, i + 1);
            assert(p.drop_last() =~= cs@.subrange(0, i as int));
            assert(out@ =~= before + escape_char(c));
        }
        i = i + 1;
    }
    assert(cs@.subrange(0, cs@.len() as int) =~= cs@);
    string_from_chars(out.as_slice())
}

/// A JSON string literal, or `null`.
pub open spec fn json_opt(s: Option<Seq<char>>) -> Seq<char> {
    match s {
        Some(t) => seq!['"'] + json_escape(t) + seq!['"'],
        None => "null"@,
    }
}

pub open spec fn json_bool(b: bool) -> Seq<char> {
    if b {
        "true"@
    } else {
        "false"@
    }
}

pub(crate) fn push_str(out: &mut Vec<char>, s: &str)
    ensures
        final(out)@ == old(out)@ + s@,
{
    let v = chars_of(s);
    text::push_all(out, v.as_slice());
}

pub(crate) fn push_json_opt(out: &mut Vec<char>, s: &Option<String>)
    ensures
        final(out)@ == old(out)@ + json_opt(model::opt_view(*s)),
{
    match s {
        Some(t) => {
            let ghost before = out@;
            out.push('"');
            let e = json_escape_exec(t.as_str());
            push_str(out, e.as_str());
            out.push('"');
            assert(out@ =~= before + (seq!['"'] + json_escape(t@) + seq!['"']));
        },
        None => push_str(out, "null"),
    }
}

fn push_bool(out: &mut Vec<char>, b: bool)
    ensures
        final(out)@ == old(out)@ + json_bool(b),
{
    if b {
        push_str(out, "true");
    } else {
        push_str(out, "false");
    }
}

pub(crate) fn push_decimal(out: &mut Vec<char>, n: usize)
    ensures
        final(out)@ == old(out)@ + decimal(n as nat),
{
    let d = text::decimal_chars(n);
    text::push_all(out, d.as_slice());
}

// ---------------------------------------------------------------- refs

/// A citation `refs` reports for `id` (and `section`, when given): local
/// (unqualified), of that ID, and of that section.
pub open spec fn ref_matches(c: model::CitationV, id: model::IdV, section: Option<Seq<char>>) -> bool {
    &&& c.namespace is None
    &&& model::id_key(c.id) == model::id_key(id)
    &&& match section {
        Some(s) => c.section == Some(s),
        None => true,
    }
}

/// The positions of the first `k` citations that match, in order.
pub open spec fn ref_positions(cits: Seq<model::CitationV>, id: model::IdV, section: Option<Seq<char>>, k: int) -> Seq<int>
    decreases k,
{
    if k <= 0 || k > cits.len() {
        Seq::empty()
    } else {
        let prev = ref_positions(cits, id, section, k - 1);
        if ref_matches(cits[k - 1], id, section) {
            prev.push(k - 1)
        } else {
            prev
        }
    }
}

proof fn lemma_ref_positions_len(cits: Seq<model::CitationV>, id: model::IdV, section: Option<Seq<char>>, k: int)
    requires
        0 <= k <= cits.len(),
    ensures
        ref_positions(cits, id, section, k).len() <= k,
    decreases k,
{
    if k > 0 {
        lemma_ref_positions_len(cits, id, section, k - 1);
    }
}

pub open spec fn cite_key(c: model::CitationV) -> KeyV {
    KeyV { path: Some(c.file), line: c.line as int, col: c.column as int, text: Seq::empty() }
}

/// The citations `refs` reports, by path, line and column.
pub open spec fn refs_of(cits: Seq<model::CitationV>, id: model::IdV, section: Option<Seq<char>>) -> Seq<model::CitationV> {
    let ps = ref_positions(cits, id, section, cits.len() as int);
    let sel = Seq::new(ps.len(), |i: int| cits[ps[i]]);
    order::sort_by_keys(sel, Seq::new(sel.len(), |i: int| cite_key(sel[i])))
}

/// The citations of `id` (and `section`), as positions into the findings'
/// citations, in report order.
pub fn refs_exec(f: &Findings, id: &Id, section: &Option<String>) -> (r: Vec<usize>)
    ensures
        forall|i: int| 0 <= i < r@.len() ==> #[trigger] r@[i] < f.citations@.len(),
        Seq::new(r@.len(), |i: int| model::citation_views(f.citations@)[r@[i] as int]) == refs_of(
            model::citation_views(f.citations@),
            id@,
            model::opt_view(*section),
        ),
{
    let ghost cv = model::citation_views(f.citations@);
    let ghost sec = model::opt_view(*section);
    let mut sel: Vec<usize> = Vec::new();
    let mut k: usize = 0;
    while k < f.citations.len()
        invariant
            k <= f.citations@.len(),
            cv == model::citation_views(f.citations@),
            sec == model::opt_view(*section),
            Seq::new(sel@.len(), |i: int| sel@[i] as int) == ref_positions(cv, id@, sec, k as int),
            forall|i: int| 0 <= i < sel@.len() ==> #[trigger] sel@[i] < k,
        decreases f.citations@.len() - k,
    {
        let c = &f.citations[k];
        let m = c.namespace.is_none() && c.id.same(id) && match section {
            Some(s) => match &c.section {
                Some(cs) => cs.eq(s),
                None => false,
            },
            None => true,
        };
        assert(cv[k as int] == c@);
        if m {
            let ghost before = sel@;
            sel.push(k);
            assert(Seq::new(sel@.len(), |i: int| sel@[i] as int) =~= Seq::new(
                before.len(),
                |i: int| before[i] as int,
            ).push(k as int));
        }
        k = k + 1;
    }
    let ghost ps = ref_positions(cv, id@, sec, cv.len() as int);
    let ghost selv = Seq::new(ps.len(), |i: int| cv[ps[i]]);
    let mut keys: Vec<SortKey> = Vec::new();
    let mut i: usize = 0;
    while i < sel.len()
        invariant
            i <= sel@.len(),
            cv == model::citation_views(f.citations@),
            Seq::new(sel@.len(), |j: int| sel@[j] as int) == ps,
            forall|j: int| 0 <= j < sel@.len() ==> #[trigger] sel@[j] < f.citations@.len(),
            selv == Seq::new(ps.len(), |j: int| cv[ps[j]]),
            order::key_views(keys@) =~= Seq::new(i as nat, |j: int| cite_key(selv[j])),
        decreases sel@.len() - i,
    {
        let c = &f.citations[sel[i]];
        assert(selv[i as int] == cv[sel@[i as int] as int]);
        assert(cv[sel@[i as int] as int] == c@);
        let ghost before = keys@;
        keys.push(SortKey { path: Some(chars_of(c.file.as_str())), line: c.line, col: c.column, text: Vec::new() });
        assert(order::key_views(keys@) =~= order::key_views(before).push(cite_key(selv[i as int])));
        i = i + 1;
    }
    let p = order::sort_order(&keys);
    let ghost ks = order::key_views(keys@);
    let mut out: Vec<usize> = Vec::new();
    let mut j: usize = 0;
    while j < p.len()
        invariant
            j <= p@.len(),
            order::is_order(ks, p@),
            ks.len() == sel@.len(),
            cv == model::citation_views(f.citations@),
            Seq::new(sel@.len(), |m: int| sel@[m] as int) == ps,
            forall|m: int| 0 <= m < sel@.len() ==> #[trigger] sel@[m] < f.citations@.len(),
            selv == Seq::new(ps.len(), |m: int| cv[ps[m]]),
            forall|m: int| 0 <= m < out@.len() ==> #[trigger] out@[m] < f.citations@.len(),
            Seq::new(out@.len(), |m: int| cv[out@[m] as int]) =~= Seq::new(j as nat, |m: int| selv[p@[m] as int]),
        decreases p@.len() - j,
    {
        let q = p[j];
        assert(selv[q as int] == cv[sel@[q as int] as int]);
        let ghost before = out@;
        out.push(sel[q]);
        assert(Seq::new(out@.len(), |m: int| cv[out@[m] as int]) =~= Seq::new(
            before.len(),
            |m: int| cv[before[m] as int],
        ).push(selv[p@[j as int] as int]));
        j = j + 1;
    }
    proof {
        order::lemma_sort_by_keys_is(selv, ks, p@);
        assert(ks =~= Seq::new(selv.len(), |m: int| cite_key(selv[m])));
    }
    out
}

/// `path:line: text` of a citation.
pub open spec fn citation_text_line(root: Seq<char>, c: model::CitationV) -> Seq<char> {
    display_path(root, c.file) + seq![':'] + decimal(c.line as nat) + seq![':', ' '] + c.text
}

/// The JSON record of a citation.
pub open spec fn citation_json(root: Seq<char>, g: grammar::GrammarV, c: model::CitationV) -> Seq<char> {
    "{\"path\":\""@ + json_escape(display_path(root, c.file)) + "\",\"line\":"@ + decimal(c.line as nat)
        + ",\"column\":"@ + decimal(c.column as nat) + ",\"id\":\""@ + json_escape(grammar::render_id(g, c.id))
        + "\",\"section\":"@ + json_opt(c.section) + ",\"marker\":"@ + json_bool(c.has_marker)
        + ",\"text\":\""@ + json_escape(c.text) + "\"}"@
}

pub fn citation_text_line_exec(root: &str, c: &Citation) -> (r: String)
    ensures
        r@ == citation_text_line(root@, c@),
{
    let mut out: Vec<char> = Vec::new();
    let d = checker::display_path_exec(root, c.file.as_str());
    push_str(&mut out, d.as_str());
    out.push(':');
    push_decimal(&mut out, c.line);
    out.push(':');
    out.push(' ');
    push_str(&mut out, c.text.as_str());
    assert(out@ =~= citation_text_line(root@, c@));
    string_from_chars(out.as_slice())
}

pub fn citation_json_exec(root: &str, g: &Grammar, c: &Citation) -> (r: String)
    requires
        g.wf(),
    ensures
        r@ == citation_json(root@, g@, c@),
{
    let mut out: Vec<char> = Vec::new();
    push_str(&mut out, "{\"path\":\"");
    let d = checker::display_path_exec(root, c.file.as_str());
    let de = json_escape_exec(d.as_str());
    push_str(&mut out, de.as_str());
    push_str(&mut out, "\",\"line\":");
    push_decimal(&mut out, c.line);
    push_str(&mut out, ",\"column\":");
    push_decimal(&mut out, c.column);
    push_str(&mut out, ",\"id\":\"");
    let rid = g.render_id(&c.id);
    let rs = string_from_chars(rid.as_slice());
    let re = json_escape_exec(rs.as_str());
    push_str(&mut out, re.as_str());
    push_str(&mut out, "\",\"section\":");
    push_json_opt(&mut out, &c.section);
    push_str(&mut out, ",\"marker\":");
    push_bool(&mut out, c.has_marker);
    push_str(&mut out, ",\"text\":\"");
    let te = json_escape_exec(c.text.as_str());
    push_str(&mut out, te.as_str());
    push_str(&mut out, "\"}");
    assert(out@ =~= citation_json(root@, g@, c@));
    string_from_chars(out.as_slice())
}

/// The positions `idx` picked out of the citations.
pub open spec fn picked(cits: Seq<model::CitationV>, idx: Seq<usize>) -> Seq<model::CitationV> {
    Seq::new(idx.len(), |i: int| cits[idx[i] as int])
}

/// One line per citation: its JSON record, or `path:line: text`.
pub open spec fn citation_lines(root: Seq<char>, g: grammar::GrammarV, rs: Seq<model::CitationV>, json: bool) -> Seq<Seq<char>> {
    Seq::new(
        rs.len(),
        |i: int|
            if json {
                citation_json(root, g, rs[i])
            } else {
                citation_text_line(root, rs[i])
            },
    )
}

/// The citations of one file in a `refs --summary`: its path, how many, and the
/// distinct lines.
pub ghost struct FileRun {
    pub file: Seq<char>,
    pub count: nat,
    pub lines: Seq<usize>,
}

/// Consecutive citations of the same file gathered into runs.
pub open spec fn file_runs(rs: Seq<model::CitationV>) -> Seq<FileRun>
    decreases rs.len(),
{
    if rs.len() == 0 {
        Seq::empty()
    } else {
        let prev = file_runs(rs.drop_last());
        let c = rs.last();
        if prev.len() > 0 && prev.last().file == c.file {
            let r = prev.last();
            let lines = if r.lines.len() > 0 && r.lines.last() == c.line {
                r.lines
            } else {
                r.lines.push(c.line)
            };
            prev.update(prev.len() - 1, FileRun { file: r.file, count: r.count + 1, lines })
        } else {
            prev.push(FileRun { file: c.file, count: 1, lines: seq![c.line] })
        }
    }
}

/// Citations in path order: a later one is in a later file (by path), or in the
/// same file on the same line or a later one.
pub open spec fn path_ordered(rs: Seq<model::CitationV>) -> bool {
    forall|i: int, j: int|
        0 <= i < j < rs.len() ==> order::chars_lt((#[trigger] rs[i]).file, (#[trigger] rs[j]).file) || (rs[i].file
            == rs[j].file && rs[i].line <= rs[j].line)
}

/// Strictly increasing line numbers.
pub open spec fn lines_increasing(ls: Seq<usize>) -> bool {
    forall|i: int, j: int| 0 <= i < j < ls.len() ==> #[trigger] ls[i] < #[trigger] ls[j]
}

/// Summary runs, one per file: their files strictly increasing by path, each run's
/// lines strictly increasing (each line once).
pub open spec fn runs_ordered(runs: Seq<FileRun>) -> bool {
    &&& forall|i: int, j: int| 0 <= i < j < runs.len() ==> order::chars_lt(#[trigger] runs[i].file, #[trigger] runs[j].file)
    &&& forall|i: int| 0 <= i < runs.len() ==> lines_increasing(#[trigger] runs[i].lines) && runs[i].lines.len() > 0
}

proof fn lemma_file_runs_ordered(rs: Seq<model::CitationV>)
    requires
        path_ordered(rs),
    ensures
        runs_ordered(file_runs(rs)),
        rs.len() > 0 ==> ({
            let runs = file_runs(rs);
            &&& runs.len() > 0
            &&& runs.last().file == rs.last().file
            &&& runs.last().lines.last() == rs.last().line
        }),
    decreases rs.len(),
{
    if rs.len() > 0 {
        let pre = rs.drop_last();
        assert(path_ordered(pre)) by {
            assert forall|i: int, j: int| 0 <= i < j < pre.len() implies order::chars_lt((#[trigger] pre[i]).file, (#[trigger] pre[j]).file)
                || (pre[i].file == pre[j].file && pre[i].line <= pre[j].line) by {
                assert(pre[i] == rs[i] && pre[j] == rs[j]);
            }
        }
        lemma_file_runs_ordered(pre);
        let prev = file_runs(pre);
        let c = rs.last();
        let runs = file_runs(rs);
        if prev.len() > 0 {
            let p = pre.last();
            assert(p == rs[rs.len() - 2]);
            assert(order::chars_lt(p.file, c.file) || (p.file == c.file && p.line <= c.line));
            if prev.last().file == c.file {
                let r = prev.last();
                assert(lines_increasing(r.lines));
                let lines = if r.lines.len() > 0 && r.lines.last() == c.line {
                    r.lines
                } else {
                    r.lines.push(c.line)
                };
                assert(lines_increasing(lines)) by {
                    assert forall|i: int, j: int| 0 <= i < j < lines.len() implies #[trigger] lines[i] < #[trigger] lines[j] by {
                        if j == r.lines.len() {
                            if i < r.lines.len() - 1 {
                                assert(r.lines[i] < r.lines[r.lines.len() - 1]);
                            }
                        }
                    }
                }
                assert forall|i: int| 0 <= i < runs.len() implies lines_increasing(#[trigger] runs[i].lines) && runs[i].lines.len() > 0 by {
                    if i < runs.len() - 1 {
                        assert(runs[i] == prev[i]);
                    }
                }
                assert forall|i: int, j: int| 0 <= i < j < runs.len() implies order::chars_lt(#[trigger] runs[i].file, #[trigger] runs[j].file) by {
                    assert(runs[i].file == prev[i].file && runs[j].file == prev[j].file);
                }
            } else {
                assert(order::chars_lt(prev.last().file, c.file));
                assert forall|i: int, j: int| 0 <= i < j < runs.len() implies order::chars_lt(#[trigger] runs[i].file, #[trigger] runs[j].file) by {
                    if j == runs.len() - 1 {
                        if i < prev.len() - 1 {
                            assert(order::chars_lt(prev[i].file, prev[prev.len() - 1].file));
                            order::lemma_chars_lt_transitive(prev[i].file, prev.last().file, c.file);
                        }
                    } else {
                        assert(runs[i] == prev[i] && runs[j] == prev[j]);
                    }
                }
                assert forall|i: int| 0 <= i < runs.len() implies lines_increasing(#[trigger] runs[i].lines) && runs[i].lines.len() > 0 by {
                    if i < prev.len() {
                        assert(runs[i] == prev[i]);
                    }
                }
            }
        }
    }
}

/// `refs --summary` lists each file once, files in path order, and each file's
/// cited lines once each, in increasing order.
pub proof fn lemma_refs_summary_per_file(cits: Seq<model::CitationV>, id: model::IdV, section: Option<Seq<char>>)
    requires
        cits.len() <= usize::MAX,
    ensures
        runs_ordered(file_runs(refs_of(cits, id, section))),
{
    let ps = ref_positions(cits, id, section, cits.len() as int);
    let sel = Seq::new(ps.len(), |i: int| cits[ps[i]]);
    let keys = Seq::new(sel.len(), |i: int| cite_key(sel[i]));
    lemma_ref_positions_len(cits, id, section, cits.len() as int);
    order::lemma_sort_by_keys_sorted(sel, keys);
    let p = choose|p: Seq<usize>| #[trigger] order::is_order(keys, p) && order::sort_by_keys(sel, keys) == Seq::new(
        sel.len(),
        |i: int| sel[p[i] as int],
    );
    let rs = refs_of(cits, id, section);
    assert(path_ordered(rs)) by {
        assert forall|i: int, j: int| 0 <= i < j < rs.len() implies order::chars_lt((#[trigger] rs[i]).file, (#[trigger] rs[j]).file)
            || (rs[i].file == rs[j].file && rs[i].line <= rs[j].line) by {
            assert(order::entry_lt(keys, p[i] as int, p[j] as int));
            assert(rs[i] == sel[p[i] as int] && rs[j] == sel[p[j] as int]);
        }
    }
    lemma_file_runs_ordered(rs);
}

/// Numbers joined with `sep`.
pub open spec fn join_numbers(ns: Seq<usize>, sep: Seq<char>) -> Seq<char>
    decreases ns.len(),
{
    if ns.len() == 0 {
        Seq::empty()
    } else if ns.len() == 1 {
        decimal(ns[0] as nat)
    } else {
        join_numbers(ns.drop_last(), sep) + sep + decimal(ns.last() as nat)
    }
}

/// One summary line: `path: N (line a)` / `(lines a, b)`, or its JSON record.
pub open spec fn run_line(root: Seq<char>, r: FileRun, json: bool) -> Seq<char> {
    if json {
        "{\"path\":\""@ + json_escape(display_path(root, r.file)) + "\",\"count\":"@ + decimal(r.count)
            + ",\"lines\":["@ + join_numbers(r.lines, seq![',']) + "]}"@
    } else {
        display_path(root, r.file) + seq![':', ' '] + decimal(r.count) + seq![' ', '('] + (if r.lines.len()
            == 1 {
            "line"@
        } else {
            "lines"@
        }) + seq![' '] + join_numbers(r.lines, seq![',', ' ']) + seq![')']
    }
}

/// What `refs` prints: the result lines, and a note when the ID is neither cited
/// (as asked) nor declared.
pub open spec fn refs_output(root: Seq<char>, g: grammar::GrammarV, f: Findings, id: model::IdV, section: Option<Seq<char>>, summary: bool, json: bool) -> (Seq<Seq<char>>, Option<Seq<char>>) {
    let rs = refs_of(model::citation_views(f.citations@), id, section);
    let lines = if summary {
        let runs = file_runs(rs);
        Seq::new(runs.len(), |i: int| run_line(root, runs[i], json))
    } else {
        citation_lines(root, g, rs, json)
    };
    let note = if rs.len() == 0 && group_index(groups_view(f.declarations@), id) is None {
        Some(
            "note: "@ + grammar::render_id(g, id) + " is neither declared nor cited \u{2014} run `grund list` to see every declared ID"@,
        )
    } else {
        None
    };
    (lines, note)
}

pub struct FileRunExec {
    pub file: String,
    pub count: usize,
    pub lines: Vec<usize>,
}

pub open spec fn run_view(r: FileRunExec) -> FileRun {
    FileRun { file: r.file@, count: r.count as nat, lines: r.lines@ }
}

pub open spec fn run_views(v: Seq<FileRunExec>) -> Seq<FileRun> {
    Seq::new(v.len(), |i: int| run_view(v[i]))
}

fn file_runs_exec(f: &Findings, idx: &Vec<usize>) -> (r: Vec<FileRunExec>)
    requires
        forall|i: int| 0 <= i < idx@.len() ==> #[trigger] idx@[i] < f.citations@.len(),
    ensures
        run_views(r@) == file_runs(picked(model::citation_views(f.citations@), idx@)),
{
    let ghost cv = model::citation_views(f.citations@);
    let ghost rs = picked(cv, idx@);
    let mut out: Vec<FileRunExec> = Vec::new();
    let mut i: usize = 0;
    while i < idx.len()
        invariant
            i <= idx@.len(),
            cv == model::citation_views(f.citations@),
            rs == picked(cv, idx@),
            forall|m: int| 0 <= m < idx@.len() ==> #[trigger] idx@[m] < f.citations@.len(),
            run_views(out@) == file_runs(rs.subrange(0, i as int)),
            forall|m: int| 0 <= m < out@.len() ==> #[trigger] out@[m].count <= i,
        decreases idx@.len() - i,
    {
        let c = &f.citations[idx[i]];
        assert(rs[i as int] == c@);
        proof {
            let p = rs.subrange(0, i + 1);
            assert(p.drop_last() =~= rs.subrange(0, i as int));
            assert(p.last() == c@);
        }
        let ghost prev = run_views(out@);
        let n = out.len();
        if n > 0 && out[n - 1].file.eq(&c.file) {
            let mut last = out.pop().unwrap();
            let ln = last.lines.len();
            if !(ln > 0 && last.lines[ln - 1] == c.line) {
                last.lines.push(c.line);
            }
            last.count = last.count + 1;
            out.push(last);
            assert(run_views(out@) =~= prev.update(n - 1, run_view(out@[n as int - 1])));
        } else {
            let mut lv: Vec<usize> = Vec::new();
            lv.push(c.line);
            assert(lv@ =~= seq![c@.line]);
            out.push(FileRunExec { file: c.file.clone(), count: 1, lines: lv });
            assert(run_views(out@) =~= prev.push(FileRun { file: c@.file, count: 1, lines: seq![c@.line] }));
        }
        i = i + 1;
    }
    assert(rs.subrange(0, idx@.len() as int) =~= rs);
    out
}

fn push_numbers(out: &mut Vec<char>, ns: &Vec<usize>, sep: &str)
    ensures
        final(out)@ == old(out)@ + join_numbers(ns@, sep@),
{
    let ghost start = out@;
    let mut i: usize = 0;
    while i < ns.len()
        invariant
            i <= ns@.len(),
            out@ == start + join_numbers(ns@.subrange(0, i as int), sep@),
        decreases ns@.len() - i,
    {
        if i > 0 {
            push_str(out, sep);
        }
        push_decimal(out, ns[i]);
        proof {
            let p = ns@.subrange(0, i + 1);
            assert(p.drop_last() =~= ns@.subrange(0, i as int));
            if i > 0 {
                assert(out@ =~= start + (join_numbers(ns@.subrange(0, i as int), sep@) + sep@ + decimal(ns@[i as int] as nat)));
            } else {
                assert(out@ =~= start + decimal(ns@[i as int] as nat));
            }
        }
        i = i + 1;
    }
    assert(ns@.subrange(0, ns@.len() as int) =~= ns@);
}

fn run_line_exec(root: &str, r: &FileRunExec, json: bool) -> (s: String)
    ensures
        s@ == run_line(root@, run_view(*r), json),
{
    let mut out: Vec<char> = Vec::new();
    let d = checker::display_path_exec(root, r.file.as_str());
    if json {
        push_str(&mut out, "{\"path\":\"");
        let de = json_escape_exec(d.as_str());
        push_str(&mut out, de.as_str());
        push_str(&mut out, "\",\"count\":");
        push_decimal(&mut out, r.count);
        push_str(&mut out, ",\"lines\":[");
        push_numbers(&mut out, &r.lines, ",");
        push_str(&mut out, "]}");
        proof {
            reveal_strlit(",");
            assert(","@ =~= seq![',']);
        }
    } else {
        push_str(&mut out, d.as_str());
        out.push(':');
        out.push(' ');
        push_decimal(&mut out, r.count);
        out.push(' ');
        out.push('(');
        if r.lines.len() == 1 {
            push_str(&mut out, "line");
        } else {
            push_str(&mut out, "lines");
        }
        out.push(' ');
        push_numbers(&mut out, &r.lines, ", ");
        out.push(')');
        proof {
            reveal_strlit(", ");
            assert(", "@ =~= seq![',', ' ']);
        }
    }
    assert(out@ =~= run_line(root@, run_view(*r), json));
    string_from_chars(out.as_slice())
}

/// What `refs` prints for an ID (and section): the lines, and the note.
pub fn refs_output_exec(config: &Config, g: &Grammar, f: &Findings, id: &Id, section: &Option<String>, summary: bool, json: bool) -> (r: (Vec<String>, Option<String>))
    requires
        g.wf(),
    ensures
        (model::str_views(r.0@), model::opt_view(r.1)) == refs_output(
            config.root@,
            g@,
            *f,
            id@,
            model::opt_view(*section),
            summary,
            json,
        ),
{
    let root = config.root.as_str();
    let idx = refs_exec(f, id, section);
    let ghost cv = model::citation_views(f.citations@);
    let ghost rs = refs_of(cv, id@, model::opt_view(*section));
    assert(picked(cv, idx@) =~= rs);
    let mut lines: Vec<String> = Vec::new();
    if summary {
        let runs = file_runs_exec(f, &idx);
        let ghost rv = run_views(runs@);
        let mut i: usize = 0;
        while i < runs.len()
            invariant
                i <= runs@.len(),
                rv == run_views(runs@),
                model::str_views(lines@) =~= Seq::new(i as nat, |m: int| run_line(root@, rv[m], json)),
            decreases runs@.len() - i,
        {
            let ghost before = lines@;
            lines.push(run_line_exec(root, &runs[i], json));
            assert(model::str_views(lines@) =~= model::str_views(before).push(run_line(root@, rv[i as int], json)));
            i = i + 1;
        }
    } else {
        let mut i: usize = 0;
        while i < idx.len()
            invariant
                i <= idx@.len(),
                g.wf(),
                cv == model::citation_views(f.citations@),
                rs == picked(cv, idx@),
                forall|m: int| 0 <= m < idx@.len() ==> #[trigger] idx@[m] < f.citations@.len(),
                model::str_views(lines@) =~= citation_lines(root@, g@, rs, json).subrange(0, i as int),
            decreases idx@.len() - i,
        {
            let c = &f.citations[idx[i]];
            assert(rs[i as int] == c@);
            let ghost before = lines@;
            if json {
                lines.push(citation_json_exec(root, g, c));
            } else {
                lines.push(citation_text_line_exec(root, c));
            }
            assert(model::str_views(lines@) =~= model::str_views(before).push(citation_lines(root@, g@, rs, json)[i as int]));
            i = i + 1;
        }
        assert(citation_lines(root@, g@, rs, json).subrange(0, idx@.len() as int) =~= citation_lines(root@, g@, rs, json));
    }
    let note = if idx.len() == 0 && checker::find_group(f, id).is_none() {
        let mut m = String::from_str("note: ");
        let rid = g.render_id(id);
        text::append_chars(&mut m, rid.as_slice());
        m.append(" is neither declared nor cited \u{2014} run `grund list` to see every declared ID");
        Some(m)
    } else {
        None
    };
    (lines, note)
}

// ---------------------------------------------------------------- cover

/// `ps` without repeats, in order of first appearance.
pub open spec fn distinct_paths(ps: Seq<Seq<char>>) -> Seq<Seq<char>>
    decreases ps.len(),
{
    if ps.len() == 0 {
        Seq::empty()
    } else {
        let prev = distinct_paths(ps.drop_last());
        if prev.contains(ps.last()) {
            prev
        } else {
            prev.push(ps.last())
        }
    }
}

/// The files of local (unqualified) citations, in citation order.
pub open spec fn local_citation_files(cits: Seq<model::CitationV>) -> Seq<Seq<char>>
    decreases cits.len(),
{
    if cits.len() == 0 {
        Seq::empty()
    } else {
        let prev = local_citation_files(cits.drop_last());
        if cits.last().namespace is None {
            prev.push(cits.last().file)
        } else {
            prev
        }
    }
}

/// The files `cover` reports: every scanned file and every file with a local
/// citation, once each, ordered by displayed path.
pub open spec fn cover_files(root: Seq<char>, scanned: Seq<Seq<char>>, cits: Seq<model::CitationV>) -> Seq<Seq<char>> {
    let fs = distinct_paths(scanned + local_citation_files(cits));
    order::sort_by_keys(fs, Seq::new(fs.len(), |i: int| KeyV { path: Some(display_path(root, fs[i])), line: 0, col: 0, text: Seq::empty() }))
}

/// The local citations of one file, by line and column.
pub open spec fn file_citations(cits: Seq<model::CitationV>, file: Seq<char>) -> Seq<model::CitationV> {
    let sel = cits.filter(|c: model::CitationV| c.namespace is None && c.file == file);
    order::sort_by_keys(sel, Seq::new(sel.len(), |i: int| KeyV { path: None, line: sel[i].line as int, col: sel[i].column as int, text: Seq::empty() }))
}

/// A file's `cover` text: `path:`, then `  line:column text` per citation or
/// `  (no citations)`.
pub open spec fn cover_text_block(root: Seq<char>, file: Seq<char>, cs: Seq<model::CitationV>) -> Seq<Seq<char>> {
    seq![display_path(root, file) + seq![':']] + if cs.len() == 0 {
        seq!["  (no citations)"@]
    } else {
        Seq::new(
            cs.len(),
            |i: int| seq![' ', ' '] + decimal(cs[i].line as nat) + seq![':'] + decimal(cs[i].column as nat) + seq![' '] + cs[i].text,
        )
    }
}

/// Record texts joined with `,`.
pub open spec fn join_records(rs: Seq<Seq<char>>) -> Seq<char>
    decreases rs.len(),
{
    if rs.len() == 0 {
        Seq::empty()
    } else if rs.len() == 1 {
        rs[0]
    } else {
        join_records(rs.drop_last()) + seq![','] + rs.last()
    }
}

/// A file's `cover` JSON record.
pub open spec fn cover_json_line(root: Seq<char>, g: grammar::GrammarV, file: Seq<char>, cs: Seq<model::CitationV>) -> Seq<char> {
    "{\"path\":\""@ + json_escape(display_path(root, file)) + "\",\"citations\":["@ + join_records(
        Seq::new(cs.len(), |i: int| citation_json(root, g, cs[i])),
    ) + "]}"@
}

/// What `cover` prints, file by file.
pub open spec fn cover_blocks(root: Seq<char>, g: grammar::GrammarV, f: Findings, json: bool, k: int) -> Seq<Seq<char>>
    decreases k,
{
    let files = cover_files(root, model::str_views(f.scanned_files@), model::citation_views(f.citations@));
    if k <= 0 || k > files.len() {
        Seq::empty()
    } else {
        let file = files[k - 1];
        let cs = file_citations(model::citation_views(f.citations@), file);
        cover_blocks(root, g, f, json, k - 1) + if json {
            seq![cover_json_line(root, g, file, cs)]
        } else {
            cover_text_block(root, file, cs)
        }
    }
}

pub open spec fn cover_output(root: Seq<char>, g: grammar::GrammarV, f: Findings, json: bool) -> Seq<Seq<char>> {
    let files = cover_files(root, model::str_views(f.scanned_files@), model::citation_views(f.citations@));
    cover_blocks(root, g, f, json, files.len() as int)
}

fn contains_string(v: &Vec<String>, s: &String) -> (r: bool)
    ensures
        r == model::str_views(v@).contains(s@),
{
    let mut i: usize = 0;
    while i < v.len()
        invariant
            i <= v@.len(),
            forall|m: int| 0 <= m < i ==> #[trigger] model::str_views(v@)[m] != s@,
        decreases v@.len() - i,
    {
        if v[i].eq(s) {
            assert(model::str_views(v@)[i as int] == s@);
            return true;
        }
        i = i + 1;
    }
    false
}

fn push_distinct(v: &mut Vec<String>, s: &String)
    ensures
        model::str_views(final(v)@) == if model::str_views(old(v)@).contains(s@) {
            model::str_views(old(v)@)
        } else {
            model::str_views(old(v)@).push(s@)
        },
{
    if !contains_string(v, s) {
        let ghost before = v@;
        v.push(s.clone());
        assert(model::str_views(v@) =~= model::str_views(before).push(s@));
    }
}

/// The files `cover` reports, in order.
pub fn cover_files_exec(root: &str, f: &Findings) -> (r: Vec<String>)
    ensures
        model::str_views(r@) == cover_files(root@, model::str_views(f.scanned_files@), model::citation_views(f.citations@)),
{
    let ghost sv = model::str_views(f.scanned_files@);
    let ghost cv = model::citation_views(f.citations@);
    let ghost all = sv + local_citation_files(cv);
    let mut fs: Vec<String> = Vec::new();
    let ghost mut seen: Seq<Seq<char>> = Seq::empty();
    let mut i: usize = 0;
    while i < f.scanned_files.len()
        invariant
            i <= f.scanned_files@.len(),
            sv == model::str_views(f.scanned_files@),
            model::str_views(fs@) == distinct_paths(sv.subrange(0, i as int)),
        decreases f.scanned_files@.len() - i,
    {
        push_distinct(&mut fs, &f.scanned_files[i]);
        proof {
            let p = sv.subrange(0, i + 1);
            assert(p.drop_last() =~= sv.subrange(0, i as int));
        }
        i = i + 1;
    }
    assert(sv.subrange(0, sv.len() as int) =~= sv);
    let mut k: usize = 0;
    while k < f.citations.len()
        invariant
            k <= f.citations@.len(),
            sv == model::str_views(f.scanned_files@),
            cv == model::citation_views(f.citations@),
            model::str_views(fs@) == distinct_paths(sv + local_citation_files(cv.subrange(0, k as int))),
        decreases f.citations@.len() - k,
    {
        let c = &f.citations[k];
        assert(cv[k as int] == c@);
        proof {
            let p = cv.subrange(0, k + 1);
            assert(p.drop_last() =~= cv.subrange(0, k as int));
        }
        if c.namespace.is_none() {
            push_distinct(&mut fs, &c.file);
            proof {
                let l = local_citation_files(cv.subrange(0, k + 1));
                assert(sv + l =~= (sv + local_citation_files(cv.subrange(0, k as int))).push(c@.file));
                assert((sv + l).drop_last() =~= sv + local_citation_files(cv.subrange(0, k as int)));
            }
        } else {
            assert(local_citation_files(cv.subrange(0, k + 1)) == local_citation_files(cv.subrange(0, k as int)));
        }
        k = k + 1;
    }
    assert(cv.subrange(0, cv.len() as int) =~= cv);
    let ghost dv = model::str_views(fs@);
    let mut keys: Vec<SortKey> = Vec::new();
    let mut j: usize = 0;
    while j < fs.len()
        invariant
            j <= fs@.len(),
            dv == model::str_views(fs@),
            order::key_views(keys@) =~= Seq::new(j as nat, |m: int| KeyV { path: Some(display_path(root@, dv[m])), line: 0, col: 0, text: Seq::empty() }),
        decreases fs@.len() - j,
    {
        let d = checker::display_path_exec(root, fs[j].as_str());
        let ghost before = keys@;
        keys.push(SortKey { path: Some(chars_of(d.as_str())), line: 0, col: 0, text: Vec::new() });
        assert(order::key_views(keys@) =~= order::key_views(before).push(KeyV { path: Some(display_path(root@, dv[j as int])), line: 0, col: 0, text: Seq::empty() }));
        j = j + 1;
    }
    let p = order::sort_order(&keys);
    let ghost ks = order::key_views(keys@);
    let mut out: Vec<String> = Vec::new();
    let mut m: usize = 0;
    while m < p.len()
        invariant
            m <= p@.len(),
            order::is_order(ks, p@),
            ks.len() == fs@.len(),
            dv == model::str_views(fs@),
            model::str_views(out@) =~= Seq::new(m as nat, |q: int| dv[p@[q] as int]),
        decreases p@.len() - m,
    {
        let ghost before = out@;
        out.push(fs[p[m]].clone());
        assert(model::str_views(out@) =~= model::str_views(before).push(dv[p@[m as int] as int]));
        m = m + 1;
    }
    proof {
        order::lemma_sort_by_keys_is(dv, ks, p@);
        assert(ks =~= Seq::new(dv.len(), |q: int| KeyV { path: Some(display_path(root@, dv[q])), line: 0, col: 0, text: Seq::empty() }));
    }
    out
}

/// The local citations of one file, as positions into the findings' citations,
/// by line and column.
pub fn file_citations_exec(f: &Findings, file: &String) -> (r: Vec<usize>)
    ensures
        forall|i: int| 0 <= i < r@.len() ==> #[trigger] r@[i] < f.citations@.len(),
        picked(model::citation_views(f.citations@), r@) == file_citations(model::citation_views(f.citations@), file@),
{
    let ghost cv = model::citation_views(f.citations@);
    let ghost pred = |c: model::CitationV| c.namespace is None && c.file == file@;
    let mut sel: Vec<usize> = Vec::new();
    let mut k: usize = 0;
    while k < f.citations.len()
        invariant
            k <= f.citations@.len(),
            cv == model::citation_views(f.citations@),
            pred == (|c: model::CitationV| c.namespace is None && c.file == file@),
            picked(cv, sel@) == cv.subrange(0, k as int).filter(pred),
            forall|i: int| 0 <= i < sel@.len() ==> #[trigger] sel@[i] < k,
        decreases f.citations@.len() - k,
    {
        let c = &f.citations[k];
        assert(cv[k as int] == c@);
        proof {
            assert(cv.subrange(0, k + 1) =~= cv.subrange(0, k as int).push(cv[k as int]));
            cv.subrange(0, k as int).lemma_filter_push(cv[k as int], pred);
        }
        if c.namespace.is_none() && c.file.eq(file) {
            let ghost before = sel@;
            sel.push(k);
            assert(picked(cv, sel@) =~= picked(cv, before).push(cv[k as int]));
        }
        k = k + 1;
    }
    assert(cv.subrange(0, cv.len() as int) =~= cv);
    let ghost selv = picked(cv, sel@);
    let mut keys: Vec<SortKey> = Vec::new();
    let mut i: usize = 0;
    while i < sel.len()
        invariant
            i <= sel@.len(),
            cv == model::citation_views(f.citations@),
            selv == picked(cv, sel@),
            forall|j: int| 0 <= j < sel@.len() ==> #[trigger] sel@[j] < f.citations@.len(),
            order::key_views(keys@) =~= Seq::new(i as nat, |j: int| KeyV { path: None, line: selv[j].line as int, col: selv[j].column as int, text: Seq::empty() }),
        decreases sel@.len() - i,
    {
        let c = &f.citations[sel[i]];
        assert(selv[i as int] == c@);
        let ghost before = keys@;
        keys.push(SortKey { path: None, line: c.line, col: c.column, text: Vec::new() });
        assert(order::key_views(keys@) =~= order::key_views(before).push(KeyV { path: None, line: selv[i as int].line as int, col: selv[i as int].column as int, text: Seq::empty() }));
        i = i + 1;
    }
    let p = order::sort_order(&keys);
    let ghost ks = order::key_views(keys@);
    let mut out: Vec<usize> = Vec::new();
    let mut j: usize = 0;
    while j < p.len()
        invariant
            j <= p@.len(),
            order::is_order(ks, p@),
            ks.len() == sel@.len(),
            cv == model::citation_views(f.citations@),
            selv == picked(cv, sel@),
            forall|m: int| 0 <= m < sel@.len() ==> #[trigger] sel@[m] < f.citations@.len(),
            forall|m: int| 0 <= m < out@.len() ==> #[trigger] out@[m] < f.citations@.len(),
            picked(cv, out@) =~= Seq::new(j as nat, |m: int| selv[p@[m] as int]),
        decreases p@.len() - j,
    {
        let q = p[j];
        let ghost before = out@;
        out.push(sel[q]);
        assert(picked(cv, out@) =~= picked(cv, before).push(selv[p@[j as int] as int]));
        j = j + 1;
    }
    proof {
        order::lemma_sort_by_keys_is(selv, ks, p@);
        assert(ks =~= Seq::new(selv.len(), |m: int| KeyV { path: None, line: selv[m].line as int, col: selv[m].column as int, text: Seq::empty() }));
    }
    out
}

/// What `cover` prints.
pub fn cover_output_exec(config: &Config, g: &Grammar, f: &Findings, json: bool) -> (r: Vec<String>)
    requires
        g.wf(),
    ensures
        model::str_views(r@) == cover_output(config.root@, g@, *f, json),
{
    let root = config.root.as_str();
    let files = cover_files_exec(root, f);
    let ghost fv = model::str_views(files@);
    let ghost cv = model::citation_views(f.citations@);
    let mut lines: Vec<String> = Vec::new();
    let mut k: usize = 0;
    while k < files.len()
        invariant
            k <= files@.len(),
            g.wf(),
            fv == model::str_views(files@),
            cv == model::citation_views(f.citations@),
            fv == cover_files(root@, model::str_views(f.scanned_files@), cv),
            model::str_views(lines@) == cover_blocks(root@, g@, *f, json, k as int),
        decreases files@.len() - k,
    {
        let file = &files[k];
        let idx = file_citations_exec(f, file);
        let ghost cs = file_citations(cv, file@);
        let ghost before = model::str_views(lines@);
        let d = checker::display_path_exec(root, file.as_str());
        if json {
            let mut out: Vec<char> = Vec::new();
            push_str(&mut out, "{\"path\":\"");
            let de = json_escape_exec(d.as_str());
            push_str(&mut out, de.as_str());
            push_str(&mut out, "\",\"citations\":[");
            let ghost recs = Seq::new(cs.len(), |i: int| citation_json(root@, g@, cs[i]));
            let ghost pre = out@;
            let mut i: usize = 0;
            while i < idx.len()
                invariant
                    i <= idx@.len(),
                    g.wf(),
                    cv == model::citation_views(f.citations@),
                    cs == picked(cv, idx@),
                    forall|m: int| 0 <= m < idx@.len() ==> #[trigger] idx@[m] < f.citations@.len(),
                    recs == Seq::new(cs.len(), |m: int| citation_json(root@, g@, cs[m])),
                    out@ == pre + join_records(recs.subrange(0, i as int)),
                decreases idx@.len() - i,
            {
                let c = &f.citations[idx[i]];
                assert(cs[i as int] == c@);
                if i > 0 {
                    out.push(',');
                }
                let js = citation_json_exec(root, g, c);
                push_str(&mut out, js.as_str());
                proof {
                    let pr = recs.subrange(0, i + 1);
                    assert(pr.drop_last() =~= recs.subrange(0, i as int));
                    if i > 0 {
                        assert(out@ =~= pre + (join_records(recs.subrange(0, i as int)) + seq![','] + recs[i as int]));
                    } else {
                        assert(out@ =~= pre + recs[i as int]);
                    }
                }
                i = i + 1;
            }
            assert(recs.subrange(0, idx@.len() as int) =~= recs);
            push_str(&mut out, "]}");
            assert(out@ =~= cover_json_line(root@, g@, file@, cs));
            lines.push(string_from_chars(out.as_slice()));
            assert(model::str_views(lines@) =~= before + seq![cover_json_line(root@, g@, file@, cs)]);
        } else {
            let mut head = d.clone();
            head.append(":");
            proof {
                reveal_strlit(":");
                assert(head@ =~= display_path(root@, file@) + seq![':']);
            }
            let ghost lb0 = lines@;
            lines.push(head);
            assert(model::str_views(lines@) =~= model::str_views(lb0).push(display_path(root@, file@) + seq![':']));
            if idx.len() == 0 {
                let ghost lb1 = lines@;
                lines.push(String::from_str("  (no citations)"));
                assert(model::str_views(lines@) =~= model::str_views(lb1).push("  (no citations)"@));
                assert(cs.len() == 0);
            } else {
                let mut i: usize = 0;
                while i < idx.len()
                    invariant
                        i <= idx@.len(),
                        cv == model::citation_views(f.citations@),
                        cs == picked(cv, idx@),
                        forall|m: int| 0 <= m < idx@.len() ==> #[trigger] idx@[m] < f.citations@.len(),
                        model::str_views(lines@) =~= before + seq![display_path(root@, file@) + seq![':']] + Seq::new(
                            i as nat,
                            |m: int| seq![' ', ' '] + decimal(cs[m].line as nat) + seq![':'] + decimal(cs[m].column as nat) + seq![' '] + cs[m].text,
                        ),
                    decreases idx@.len() - i,
                {
                    let c = &f.citations[idx[i]];
                    assert(cs[i as int] == c@);
                    let mut out: Vec<char> = Vec::new();
                    out.push(' ');
                    out.push(' ');
                    push_decimal(&mut out, c.line);
                    out.push(':');
                    push_decimal(&mut out, c.column);
                    out.push(' ');
                    push_str(&mut out, c.text.as_str());
                    assert(out@ =~= seq![' ', ' '] + decimal(cs[i as int].line as nat) + seq![':'] + decimal(cs[i as int].column as nat) + seq![' '] + cs[i as int].text);
                    let ghost lb = lines@;
                    lines.push(string_from_chars(out.as_slice()));
                    assert(model::str_views(lines@) =~= model::str_views(lb).push(out@));
                    i = i + 1;
                }
            }
            assert(model::str_views(lines@) =~= before + cover_text_block(root@, file@, cs));
        }
        k = k + 1;
    }
    lines
}

// ---------------------------------------------------------------- list

/// How many citations cite `id`.
pub open spec fn ref_count(cits: Seq<model::CitationV>, id: model::IdV) -> nat
    decreases cits.len(),
{
    if cits.len() == 0 {
        0
    } else {
        ref_count(cits.drop_last(), id) + if model::id_key(cits.last().id) == model::id_key(id) {
            1nat
        } else {
            0nat
        }
    }
}

/// A group `list` shows: of a selected kind (every kind when none is selected);
/// with `--unused`, uncited, and not an `E2E` case unless `E2E` is selected.
pub open spec fn group_listed(filter: Seq<Seq<char>>, unused_only: bool, id: model::IdV, refs: nat) -> bool {
    &&& (filter.len() == 0 || filter.contains(id.kind))
    &&& !(unused_only && refs > 0)
    &&& !(unused_only && id.kind == "E2E"@ && !filter.contains("E2E"@))
}

/// The homes of one ID, by path and line.
pub open spec fn sorted_homes(root: Seq<char>, ds: Seq<model::DeclarationV>) -> Seq<model::DeclarationV> {
    let hs = ds.filter(|d: model::DeclarationV| !checker::stub_for_inline(root, d, ds));
    order::sort_by_keys(hs, Seq::new(hs.len(), |i: int| KeyV { path: Some(hs[i].file), line: hs[i].line as int, col: 0, text: Seq::empty() }))
}

/// One line of the catalog.
pub ghost struct ListEntryV {
    pub id: model::IdV,
    pub home: model::DeclarationV,
    pub duplicate: bool,
    pub refs: nat,
}

/// The catalog entries of the first `k` groups: each listed ID once per home.
pub open spec fn list_entries_upto(root: Seq<char>, filter: Seq<Seq<char>>, unused_only: bool, cits: Seq<model::CitationV>, gs: Seq<(model::IdV, Seq<model::DeclarationV>)>, k: int) -> Seq<ListEntryV>
    decreases k,
{
    if k <= 0 || k > gs.len() {
        Seq::empty()
    } else {
        let prev = list_entries_upto(root, filter, unused_only, cits, gs, k - 1);
        let (id, ds) = gs[k - 1];
        let refs = ref_count(cits, id);
        if group_listed(filter, unused_only, id, refs) {
            let hs = sorted_homes(root, ds);
            prev + Seq::new(hs.len(), |i: int| ListEntryV { id, home: hs[i], duplicate: hs.len() > 1, refs })
        } else {
            prev
        }
    }
}

pub open spec fn list_entries(root: Seq<char>, filter: Seq<Seq<char>>, unused_only: bool, f: Findings) -> Seq<ListEntryV> {
    let gs = groups_view(f.declarations@);
    list_entries_upto(root, filter, unused_only, model::citation_views(f.citations@), gs, gs.len() as int)
}

/// A catalog entry: which group, which declaration of it, and its flags.
pub struct ListEntry {
    pub group: usize,
    pub decl: usize,
    pub duplicate: bool,
    pub refs: usize,
}

pub open spec fn entry_view(f: Findings, e: ListEntry) -> ListEntryV {
    let g = groups_view(f.declarations@)[e.group as int];
    ListEntryV { id: g.0, home: g.1[e.decl as int], duplicate: e.duplicate, refs: e.refs as nat }
}

pub open spec fn entry_views(f: Findings, v: Seq<ListEntry>) -> Seq<ListEntryV> {
    Seq::new(v.len(), |i: int| entry_view(f, v[i]))
}

pub open spec fn entries_in(f: Findings, v: Seq<ListEntry>) -> bool {
    forall|i: int|
        0 <= i < v.len() ==> (#[trigger] v[i]).group < f.declarations@.len() && v[i].decl
            < f.declarations@[v[i].group as int].decls@.len()
}

fn ref_count_exec(f: &Findings, id: &Id) -> (r: usize)
    ensures
        r == ref_count(model::citation_views(f.citations@), id@),
{
    let ghost cv = model::citation_views(f.citations@);
    let mut n: usize = 0;
    let mut k: usize = 0;
    while k < f.citations.len()
        invariant
            k <= f.citations@.len(),
            cv == model::citation_views(f.citations@),
            n == ref_count(cv.subrange(0, k as int), id@),
            n <= k,
        decreases f.citations@.len() - k,
    {
        proof {
            let p = cv.subrange(0, k + 1);
            assert(p.drop_last() =~= cv.subrange(0, k as int));
        }
        if f.citations[k].id.same(id) {
            n = n + 1;
        }
        k = k + 1;
    }
    assert(cv.subrange(0, cv.len() as int) =~= cv);
    n
}

fn strings_contain(v: &Vec<String>, s: &str) -> (r: bool)
    ensures
        r == model::str_views(v@).contains(s@),
{
    let t = String::from_str(s);
    let mut i: usize = 0;
    while i < v.len()
        invariant
            i <= v@.len(),
            t@ == s@,
            forall|m: int| 0 <= m < i ==> #[trigger] model::str_views(v@)[m] != s@,
        decreases v@.len() - i,
    {
        if v[i].eq(&t) {
            assert(model::str_views(v@)[i as int] == s@);
            return true;
        }
        i = i + 1;
    }
    false
}

/// The catalog `list` prints.
pub fn list_entries_exec(root: &str, filter: &Vec<String>, unused_only: bool, f: &Findings) -> (r: Vec<ListEntry>)
    ensures
        entries_in(*f, r@),
        entry_views(*f, r@) == list_entries(root@, model::str_views(filter@), unused_only, *f),
{
    let ghost gs = groups_view(f.declarations@);
    let ghost cv = model::citation_views(f.citations@);
    let ghost fv = model::str_views(filter@);
    let mut out: Vec<ListEntry> = Vec::new();
    let has_e2e = strings_contain(filter, "E2E");
    let mut k: usize = 0;
    while k < f.declarations.len()
        invariant
            k <= f.declarations@.len(),
            gs == groups_view(f.declarations@),
            cv == model::citation_views(f.citations@),
            fv == model::str_views(filter@),
            has_e2e == fv.contains("E2E"@),
            entries_in(*f, out@),
            entry_views(*f, out@) == list_entries_upto(root@, fv, unused_only, cv, gs, k as int),
        decreases f.declarations@.len() - k,
    {
        let grp = &f.declarations[k];
        let ghost dv = model::decl_views(grp.decls@);
        assert(gs[k as int] == (grp.id@, dv));
        let refs = ref_count_exec(f, &grp.id);
        let e2e = String::from_str("E2E");
        let kind_ok = filter.len() == 0 || contains_string(filter, &grp.id.kind);
        let listed = kind_ok && !(unused_only && refs > 0) && !(unused_only && grp.id.kind.eq(&e2e) && !has_e2e);
        if listed {
            let ghost pred = |d: model::DeclarationV| !checker::stub_for_inline(root@, d, dv);
            let mut hidx: Vec<usize> = Vec::new();
            let mut m: usize = 0;
            while m < grp.decls.len()
                invariant
                    m <= grp.decls@.len(),
                    dv == model::decl_views(grp.decls@),
                    pred == (|d: model::DeclarationV| !checker::stub_for_inline(root@, d, dv)),
                    Seq::new(hidx@.len(), |i: int| dv[hidx@[i] as int]) == dv.subrange(0, m as int).filter(pred),
                    forall|i: int| 0 <= i < hidx@.len() ==> #[trigger] hidx@[i] < m,
                decreases grp.decls@.len() - m,
            {
                proof {
                    assert(dv.subrange(0, m + 1) =~= dv.subrange(0, m as int).push(dv[m as int]));
                    dv.subrange(0, m as int).lemma_filter_push(dv[m as int], pred);
                }
                let ghost before = hidx@;
                if !checker::stub_for_inline_exec(root, &grp.decls[m], &grp.decls) {
                    hidx.push(m);
                    assert(Seq::new(hidx@.len(), |i: int| dv[hidx@[i] as int]) =~= Seq::new(
                        before.len(),
                        |i: int| dv[before[i] as int],
                    ).push(dv[m as int]));
                }
                m = m + 1;
            }
            assert(dv.subrange(0, dv.len() as int) =~= dv);
            let ghost hs = dv.filter(pred);
            let mut keys: Vec<SortKey> = Vec::new();
            let mut i: usize = 0;
            while i < hidx.len()
                invariant
                    i <= hidx@.len(),
                    dv == model::decl_views(grp.decls@),
                    hs == Seq::new(hidx@.len(), |j: int| dv[hidx@[j] as int]),
                    forall|j: int| 0 <= j < hidx@.len() ==> #[trigger] hidx@[j] < grp.decls@.len(),
                    order::key_views(keys@) =~= Seq::new(i as nat, |j: int| KeyV { path: Some(hs[j].file), line: hs[j].line as int, col: 0, text: Seq::empty() }),
                decreases hidx@.len() - i,
            {
                let d = &grp.decls[hidx[i]];
                assert(hs[i as int] == d@);
                let ghost before = keys@;
                keys.push(SortKey { path: Some(chars_of(d.file.as_str())), line: d.line, col: 0, text: Vec::new() });
                assert(order::key_views(keys@) =~= order::key_views(before).push(KeyV { path: Some(hs[i as int].file), line: hs[i as int].line as int, col: 0, text: Seq::empty() }));
                i = i + 1;
            }
            let p = order::sort_order(&keys);
            let ghost ks = order::key_views(keys@);
            proof {
                order::lemma_sort_by_keys_is(hs, ks, p@);
                assert(ks =~= Seq::new(hs.len(), |j: int| KeyV { path: Some(hs[j].file), line: hs[j].line as int, col: 0, text: Seq::empty() }));
            }
            let ghost sh = sorted_homes(root@, dv);
            assert(sh == Seq::new(hs.len(), |j: int| hs[p@[j] as int]));
            let dup = hidx.len() > 1;
            let ghost start = entry_views(*f, out@);
            let mut j: usize = 0;
            while j < p.len()
                invariant
                    j <= p@.len(),
                    order::is_order(ks, p@),
                    ks.len() == hidx@.len(),
                    k < f.declarations@.len(),
                    grp == &f.declarations@[k as int],
                    gs == groups_view(f.declarations@),
                    gs[k as int] == (grp.id@, dv),
                    dv == model::decl_views(grp.decls@),
                    hs == Seq::new(hidx@.len(), |m: int| dv[hidx@[m] as int]),
                    sh == Seq::new(hs.len(), |m: int| hs[p@[m] as int]),
                    forall|m: int| 0 <= m < hidx@.len() ==> #[trigger] hidx@[m] < grp.decls@.len(),
                    dup == (hs.len() > 1),
                    entries_in(*f, out@),
                    entry_views(*f, out@) =~= start + Seq::new(j as nat, |m: int| ListEntryV { id: grp.id@, home: sh[m], duplicate: dup, refs: refs as nat }),
                decreases p@.len() - j,
            {
                let ghost before = out@;
                out.push(ListEntry { group: k, decl: hidx[p[j]], duplicate: dup, refs });
                assert(entry_views(*f, out@) =~= entry_views(*f, before).push(ListEntryV { id: grp.id@, home: sh[j as int], duplicate: dup, refs: refs as nat }));
                j = j + 1;
            }
        }
        k = k + 1;
    }
    out
}

/// `s` padded with spaces on the right to `w` characters.
pub open spec fn pad_right(s: Seq<char>, w: nat) -> Seq<char> {
    if s.len() >= w {
        s
    } else {
        s + Seq::new((w - s.len()) as nat, |i: int| ' ')
    }
}

/// `s` padded with spaces on the left to `w` characters.
pub open spec fn pad_left(s: Seq<char>, w: nat) -> Seq<char> {
    if s.len() >= w {
        s
    } else {
        Seq::new((w - s.len()) as nat, |i: int| ' ') + s
    }
}

pub open spec fn max_id_width(g: grammar::GrammarV, es: Seq<ListEntryV>) -> nat
    decreases es.len(),
{
    if es.len() == 0 {
        0
    } else {
        let a = max_id_width(g, es.drop_last());
        let b = grammar::render_id(g, es.last().id).len();
        if a >= b {
            a
        } else {
            b
        }
    }
}

pub open spec fn duplicate_note() -> Seq<char> {
    "(duplicate declaration \u{2014} grund check)"@
}

/// The note after an entry's location: a stub's target, else its title; plus the
/// duplicate marker.
pub open spec fn entry_note(e: ListEntryV) -> Seq<char> {
    let base = if e.home.is_stub {
        match e.home.defined_in {
            Some(t) => "\u{2192} "@ + t,
            None => Seq::empty(),
        }
    } else {
        match e.home.title {
            Some(t) => t,
            None => Seq::empty(),
        }
    };
    if e.duplicate {
        if base.len() == 0 {
            duplicate_note()
        } else {
            base + seq![' ', ' '] + duplicate_note()
        }
    } else {
        base
    }
}

/// One catalog text line: the ID padded to the column width, its location, its note.
pub open spec fn list_text_line(root: Seq<char>, g: grammar::GrammarV, w: nat, e: ListEntryV) -> Seq<char> {
    let loc = display_path(root, e.home.file) + seq![':'] + decimal(e.home.line as nat);
    let note = entry_note(e);
    pad_right(grammar::render_id(g, e.id), w) + seq![' ', ' '] + loc + if note.len() == 0 {
        Seq::empty()
    } else {
        seq![' ', ' '] + note
    }
}

/// One catalog JSON record.
pub open spec fn list_json_line(root: Seq<char>, g: grammar::GrammarV, e: ListEntryV) -> Seq<char> {
    "{\"id\":\""@ + json_escape(grammar::render_id(g, e.id)) + "\",\"kind\":\""@ + json_escape(e.id.kind)
        + "\",\"path\":\""@ + json_escape(display_path(root, e.home.file)) + "\",\"line\":"@ + decimal(
        e.home.line as nat,
    ) + ",\"title\":"@ + json_opt(e.home.title) + ",\"stub\":"@ + json_bool(e.home.is_stub)
        + ",\"defines\":"@ + json_opt(e.home.defined_in) + ",\"refs\":"@ + decimal(e.refs)
        + ",\"duplicate\":"@ + json_bool(e.duplicate) + "}"@
}

/// The catalog lines: JSON records, or text lines with the ID column at most 40 wide.
pub open spec fn list_lines(root: Seq<char>, g: grammar::GrammarV, es: Seq<ListEntryV>, json: bool) -> Seq<Seq<char>> {
    let w = if max_id_width(g, es) > 40 {
        40
    } else {
        max_id_width(g, es)
    };
    Seq::new(
        es.len(),
        |i: int|
            if json {
                list_json_line(root, g, es[i])
            } else {
                list_text_line(root, g, w, es[i])
            },
    )
}

fn pad_right_exec(s: &mut Vec<char>, w: usize)
    ensures
        final(s)@ == pad_right(old(s)@, w as nat),
{
    let ghost s0 = s@;
    if s.len() >= w {
        return;
    }
    let n = w - s.len();
    let mut i: usize = 0;
    while i < n
        invariant
            i <= n,
            n == w - s0.len(),
            s@ == s0 + Seq::new(i as nat, |m: int| ' '),
        decreases n - i,
    {
        s.push(' ');
        assert(s@ =~= s0 + Seq::new((i + 1) as nat, |m: int| ' '));
        i = i + 1;
    }
}

fn pad_left_exec(s: &Vec<char>, w: usize) -> (r: Vec<char>)
    ensures
        r@ == pad_left(s@, w as nat),
{
    if s.len() >= w {
        return s.clone();
    }
    let n = w - s.len();
    let mut out: Vec<char> = Vec::new();
    let mut i: usize = 0;
    while i < n
        invariant
            i <= n,
            out@ == Seq::new(i as nat, |m: int| ' '),
        decreases n - i,
    {
        out.push(' ');
        assert(out@ =~= Seq::new((i + 1) as nat, |m: int| ' '));
        i = i + 1;
    }
    text::push_all(&mut out, s.as_slice());
    out
}

fn list_text_line_exec(root: &str, g: &Grammar, w: usize, f: &Findings, e: &ListEntry) -> (r: String)
    requires
        g.wf(),
        entries_in(*f, seq![*e]),
    ensures
        r@ == list_text_line(root@, g@, w as nat, entry_view(*f, *e)),
{
    assert(seq![*e][0] == *e);
    let grp = &f.declarations[e.group];
    let d = &grp.decls[e.decl];
    let ghost ev = entry_view(*f, *e);
    assert(ev.id == grp.id@);
    assert(ev.home == d@);
    let mut out = g.render_id(&grp.id);
    pad_right_exec(&mut out, w);
    out.push(' ');
    out.push(' ');
    let dp = checker::display_path_exec(root, d.file.as_str());
    push_str(&mut out, dp.as_str());
    out.push(':');
    push_decimal(&mut out, d.line);
    let mut note: Vec<char> = Vec::new();
    if d.is_stub {
        match &d.defined_in {
            Some(t) => {
                push_str(&mut note, "\u{2192} ");
                push_str(&mut note, t.as_str());
            },
            None => {},
        }
    } else {
        match &d.title {
            Some(t) => push_str(&mut note, t.as_str()),
            None => {},
        }
    }
    if e.duplicate {
        if note.len() > 0 {
            note.push(' ');
            note.push(' ');
        }
        push_str(&mut note, "(duplicate declaration \u{2014} grund check)");
    }
    assert(note@ =~= entry_note(ev));
    if note.len() > 0 {
        out.push(' ');
        out.push(' ');
        text::push_all(&mut out, note.as_slice());
    }
    assert(out@ =~= list_text_line(root@, g@, w as nat, ev));
    string_from_chars(out.as_slice())
}

fn list_json_line_exec(root: &str, g: &Grammar, f: &Findings, e: &ListEntry) -> (r: String)
    requires
        g.wf(),
        entries_in(*f, seq![*e]),
    ensures
        r@ == list_json_line(root@, g@, entry_view(*f, *e)),
{
    assert(seq![*e][0] == *e);
    let grp = &f.declarations[e.group];
    let d = &grp.decls[e.decl];
    let ghost ev = entry_view(*f, *e);
    assert(ev.id == grp.id@);
    assert(ev.home == d@);
    let mut out: Vec<char> = Vec::new();
    push_str(&mut out, "{\"id\":\"");
    let rid = g.render_id(&grp.id);
    let rs = string_from_chars(rid.as_slice());
    let re = json_escape_exec(rs.as_str());
    push_str(&mut out, re.as_str());
    push_str(&mut out, "\",\"kind\":\"");
    let ke = json_escape_exec(grp.id.kind.as_str());
    push_str(&mut out, ke.as_str());
    push_str(&mut out, "\",\"path\":\"");
    let dp = checker::display_path_exec(root, d.file.as_str());
    let de = json_escape_exec(dp.as_str());
    push_str(&mut out, de.as_str());
    push_str(&mut out, "\",\"line\":");
    push_decimal(&mut out, d.line);
    push_str(&mut out, ",\"title\":");
    push_json_opt(&mut out, &d.title);
    push_str(&mut out, ",\"stub\":");
    push_bool(&mut out, d.is_stub);
    push_str(&mut out, ",\"defines\":");
    push_json_opt(&mut out, &d.defined_in);
    push_str(&mut out, ",\"refs\":");
    push_decimal(&mut out, e.refs);
    push_str(&mut out, ",\"duplicate\":");
    push_bool(&mut out, e.duplicate);
    push_str(&mut out, "}");
    assert(out@ =~= list_json_line(root@, g@, ev));
    string_from_chars(out.as_slice())
}

/// What `list` prints for the catalog (without `--summary`).
pub fn list_lines_exec(root: &str, g: &Grammar, f: &Findings, es: &Vec<ListEntry>, json: bool) -> (r: Vec<String>)
    requires
        g.wf(),
        entries_in(*f, es@),
    ensures
        model::str_views(r@) == list_lines(root@, g@, entry_views(*f, es@), json),
{
    let ghost ev = entry_views(*f, es@);
    let mut wmax: usize = 0;
    let mut i: usize = 0;
    while i < es.len()
        invariant
            i <= es@.len(),
            g.wf(),
            entries_in(*f, es@),
            ev == entry_views(*f, es@),
            wmax == max_id_width(g@, ev.subrange(0, i as int)),
        decreases es@.len() - i,
    {
        let e = &es[i];
        assert(es@[i as int] == *e);
        let rid = g.render_id(&f.declarations[e.group].id);
        assert(ev[i as int].id == f.declarations@[e.group as int].id@);
        proof {
            let p = ev.subrange(0, i + 1);
            assert(p.drop_last() =~= ev.subrange(0, i as int));
        }
        if rid.len() > wmax {
            wmax = rid.len();
        }
        i = i + 1;
    }
    assert(ev.subrange(0, ev.len() as int) =~= ev);
    let w = if wmax > 40 {
        40
    } else {
        wmax
    };
    let mut lines: Vec<String> = Vec::new();
    let mut k: usize = 0;
    while k < es.len()
        invariant
            k <= es@.len(),
            g.wf(),
            entries_in(*f, es@),
            ev == entry_views(*f, es@),
            w == if max_id_width(g@, ev) > 40 {
                40
            } else {
                max_id_width(g@, ev)
            },
            model::str_views(lines@) =~= list_lines(root@, g@, ev, json).subrange(0, k as int),
        decreases es@.len() - k,
    {
        let e = &es[k];
        assert(es@[k as int] == *e);
        assert(entries_in(*f, seq![*e]));
        let ghost before = lines@;
        if json {
            lines.push(list_json_line_exec(root, g, f, e));
        } else {
            lines.push(list_text_line_exec(root, g, w, f, e));
        }
        assert(model::str_views(lines@) =~= model::str_views(before).push(list_lines(root@, g@, ev, json)[k as int]));
        k = k + 1;
    }
    assert(list_lines(root@, g@, ev, json).subrange(0, es@.len() as int) =~= list_lines(root@, g@, ev, json));
    lines
}

/// The pieces of `s` between commas (`str::split(',')`).
pub open spec fn split_commas_from(s: Seq<char>, i: int) -> Seq<Seq<char>>
    decreases s.len() - i,
{
    if i < 0 || i > s.len() {
        Seq::empty()
    } else {
        match text::find_from(s, seq![','], i) {
            Some(j) => if i <= j < s.len() {
                seq![s.subrange(i, j)] + split_commas_from(s, j + 1)
            } else {
                Seq::empty()
            },
            None => seq![s.subrange(i, s.len() as int)],
        }
    }
}

/// Adds the comma-separated kinds of one `--kind` value to the filter.
pub fn add_kind_filters(filter: &mut Vec<String>, raw: &str)
    ensures
        model::str_views(final(filter)@) == model::str_views(old(filter)@) + split_commas_from(raw@, 0),
{
    let s = chars_of(raw);
    let comma = vec![','];
    assert(comma@ =~= seq![',']);
    let ghost start = model::str_views(filter@);
    let len = s.len();
    let mut i: usize = 0;
    loop
        invariant
            len == s@.len(),
            s@ == raw@,
            comma@ == seq![','],
            i <= len,
            start == model::str_views(old(filter)@),
            model::str_views(filter@) + split_commas_from(s@, i as int) == start + split_commas_from(s@, 0),
        decreases len - i,
    {
        let ghost before = model::str_views(filter@);
        proof {
            text::lemma_find_from_bounds(s@, comma@, i as int);
        }
        match text::find_seq(s.as_slice(), comma.as_slice(), i) {
            Some(j) => {
                let piece = text::slice_range(s.as_slice(), i, j);
                filter.push(string_from_chars(piece.as_slice()));
                assert(model::str_views(filter@) =~= before.push(s@.subrange(i as int, j as int)));
                i = j + 1;
            },
            None => {
                let piece = text::slice_range(s.as_slice(), i, len);
                filter.push(string_from_chars(piece.as_slice()));
                assert(model::str_views(filter@) =~= before.push(s@.subrange(i as int, len as int)));
                assert(split_commas_from(s@, i as int) == seq![s@.subrange(i as int, len as int)]);
                assert(model::str_views(filter@) =~= before + split_commas_from(s@, i as int));
                return;
            },
        }
    }
}

pub open spec fn known_kinds(kinds: Seq<KindConfig>) -> Seq<Seq<char>> {
    model::kind_prefix_views(kinds)
}

/// The least (in string order) filtered kind that no configured kind has, if any.
pub open spec fn least_unknown(filter: Seq<Seq<char>>, known: Seq<Seq<char>>) -> Option<Seq<char>>
    decreases filter.len(),
{
    if filter.len() == 0 {
        None
    } else {
        let rest = least_unknown(filter.drop_last(), known);
        let k = filter.last();
        if known.contains(k) {
            rest
        } else {
            match rest {
                Some(r) => if order::chars_lt(k, r) {
                    Some(k)
                } else {
                    Some(r)
                },
                None => Some(k),
            }
        }
    }
}

/// Prefixes joined with `, `.
pub open spec fn join_comma_space(ps: Seq<Seq<char>>) -> Seq<char>
    decreases ps.len(),
{
    if ps.len() == 0 {
        Seq::empty()
    } else if ps.len() == 1 {
        ps[0]
    } else {
        join_comma_space(ps.drop_last()) + seq![',', ' '] + ps.last()
    }
}

/// The error `list` stops with when a filtered kind is unknown: the message and the
/// list of known kinds.
pub open spec fn unknown_kind_error(filter: Seq<Seq<char>>, kinds: Seq<KindConfig>) -> Option<(Seq<char>, Seq<char>)> {
    match least_unknown(filter, known_kinds(kinds)) {
        Some(k) => Some(("unknown kind `"@ + k + "`"@, "known kinds: "@ + join_comma_space(known_kinds(kinds)))),
        None => None,
    }
}

pub fn unknown_kind_error_exec(filter: &Vec<String>, config: &Config) -> (r: Option<(String, String)>)
    ensures
        match (r, unknown_kind_error(model::str_views(filter@), config.kinds@)) {
            (Some((a, b)), Some((a2, b2))) => a@ == a2 && b@ == b2,
            (None, None) => true,
            _ => false,
        },
{
    let ghost fv = model::str_views(filter@);
    let ghost known = known_kinds(config.kinds@);
    let mut prefixes: Vec<String> = Vec::new();
    let mut i: usize = 0;
    while i < config.kinds.len()
        invariant
            i <= config.kinds@.len(),
            model::str_views(prefixes@) =~= known.subrange(0, i as int),
            known == known_kinds(config.kinds@),
        decreases config.kinds@.len() - i,
    {
        let ghost before = prefixes@;
        prefixes.push(config.kinds[i].prefix.clone());
        assert(model::str_views(prefixes@) =~= model::str_views(before).push(known[i as int]));
        i = i + 1;
    }
    assert(known.subrange(0, known.len() as int) =~= known);
    let mut best: Option<String> = None;
    let mut k: usize = 0;
    while k < filter.len()
        invariant
            k <= filter@.len(),
            fv == model::str_views(filter@),
            model::str_views(prefixes@) == known,
            model::opt_view(best) == least_unknown(fv.subrange(0, k as int), known),
        decreases filter@.len() - k,
    {
        let cand = &filter[k];
        proof {
            let p = fv.subrange(0, k + 1);
            assert(p.drop_last() =~= fv.subrange(0, k as int));
            assert(p.last() == cand@);
        }
        if !contains_string(&prefixes, cand) {
            let better = match &best {
                Some(b) => {
                    let cv = chars_of(cand.as_str());
                    let bv = chars_of(b.as_str());
                    crate::order::chars_less(cv.as_slice(), bv.as_slice())
                },
                None => true,
            };
            if better {
                best = Some(cand.clone());
            }
        }
        k = k + 1;
    }
    assert(fv.subrange(0, fv.len() as int) =~= fv);
    match best {
        Some(b) => {
            let mut m = String::from_str("unknown kind `");
            m.append(b.as_str());
            m.append("`");
            let mut l = String::from_str("known kinds: ");
            let mut j: usize = 0;
            while j < prefixes.len()
                invariant
                    j <= prefixes@.len(),
                    model::str_views(prefixes@) == known,
                    l@ == "known kinds: "@ + join_comma_space(known.subrange(0, j as int)),
                decreases prefixes@.len() - j,
            {
                let ghost before = l@;
                if j > 0 {
                    l.append(", ");
                }
                l.append(prefixes[j].as_str());
                proof {
                    reveal_strlit(", ");
                    let p = known.subrange(0, j + 1);
                    assert(p.drop_last() =~= known.subrange(0, j as int));
                    assert(p.last() == prefixes@[j as int]@);
                    if j > 0 {
                        assert(l@ =~= "known kinds: "@ + (join_comma_space(known.subrange(0, j as int)) + seq![',', ' '] + prefixes@[j as int]@));
                    } else {
                        assert(l@ =~= "known kinds: "@ + prefixes@[j as int]@);
                    }
                }
                j = j + 1;
            }
            assert(known.subrange(0, known.len() as int) =~= known);
            Some((m, l))
        },
        None => None,
    }
}

/// How many catalog entries are of `kind`.
pub open spec fn kind_count(es: Seq<ListEntryV>, kind: Seq<char>) -> nat
    decreases es.len(),
{
    if es.len() == 0 {
        0
    } else {
        kind_count(es.drop_last(), kind) + if es.last().id.kind == kind {
            1nat
        } else {
            0nat
        }
    }
}

/// One `--summary` line for a kind with entries.
pub open spec fn summary_line(k: KindConfig, count: nat, json: bool) -> Seq<char> {
    let folder = match k.folder {
        Some(f) => f@,
        None => Seq::empty(),
    };
    if json {
        "{\"kind\":\""@ + json_escape(k.prefix@) + "\",\"title\":\""@ + json_escape(
            match k.title {
                Some(t) => t@,
                None => "Declaration"@,
            },
        ) + "\",\"home\":\""@ + json_escape(folder) + "\",\"count\":"@ + decimal(count) + "}"@
    } else {
        pad_right(k.prefix@, 4) + seq![' ', ' '] + pad_left(decimal(count), 3) + seq![' ', ' '] + folder
    }
}

/// The `--summary` lines: configured kinds in order, those with entries.
pub open spec fn summary_lines(kinds: Seq<KindConfig>, es: Seq<ListEntryV>, json: bool) -> Seq<Seq<char>>
    decreases kinds.len(),
{
    if kinds.len() == 0 {
        Seq::empty()
    } else {
        let prev = summary_lines(kinds.drop_last(), es, json);
        let k = kinds.last();
        let n = kind_count(es, k.prefix@);
        if n == 0 {
            prev
        } else {
            prev.push(summary_line(k, n, json))
        }
    }
}

pub fn summary_lines_exec(config: &Config, f: &Findings, es: &Vec<ListEntry>, json: bool) -> (r: Vec<String>)
    requires
        entries_in(*f, es@),
    ensures
        model::str_views(r@) == summary_lines(config.kinds@, entry_views(*f, es@), json),
{
    let ghost ev = entry_views(*f, es@);
    let ghost ks = config.kinds@;
    let mut out: Vec<String> = Vec::new();
    let mut i: usize = 0;
    while i < config.kinds.len()
        invariant
            i <= config.kinds@.len(),
            ks == config.kinds@,
            entries_in(*f, es@),
            ev == entry_views(*f, es@),
            model::str_views(out@) == summary_lines(ks.subrange(0, i as int), ev, json),
        decreases config.kinds@.len() - i,
    {
        let kc = &config.kinds[i];
        let mut n: usize = 0;
        let mut m: usize = 0;
        while m < es.len()
            invariant
                m <= es@.len(),
                entries_in(*f, es@),
                ev == entry_views(*f, es@),
                n == kind_count(ev.subrange(0, m as int), kc.prefix@),
                n <= m,
            decreases es@.len() - m,
        {
            let e = &es[m];
            assert(es@[m as int] == *e);
            assert(ev[m as int].id == f.declarations@[e.group as int].id@);
            proof {
                let p = ev.subrange(0, m + 1);
                assert(p.drop_last() =~= ev.subrange(0, m as int));
            }
            if f.declarations[e.group].id.kind.eq(&kc.prefix) {
                n = n + 1;
            }
            m = m + 1;
        }
        assert(ev.subrange(0, ev.len() as int) =~= ev);
        proof {
            let p = ks.subrange(0, i + 1);
            assert(p.drop_last() =~= ks.subrange(0, i as int));
            assert(p.last() == *kc);
        }
        if n > 0 {
            let mut line: Vec<char> = Vec::new();
            let folder = match &kc.folder {
                Some(f) => f.clone(),
                None => String::new(),
            };
            if json {
                push_str(&mut line, "{\"kind\":\"");
                let pe = json_escape_exec(kc.prefix.as_str());
                push_str(&mut line, pe.as_str());
                push_str(&mut line, "\",\"title\":\"");
                let t = match &kc.title {
                    Some(t) => t.clone(),
                    None => String::from_str("Declaration"),
                };
                let te = json_escape_exec(t.as_str());
                push_str(&mut line, te.as_str());
                push_str(&mut line, "\",\"home\":\"");
                let fe = json_escape_exec(folder.as_str());
                push_str(&mut line, fe.as_str());
                push_str(&mut line, "\",\"count\":");
                push_decimal(&mut line, n);
                push_str(&mut line, "}");
            } else {
                let mut p = chars_of(kc.prefix.as_str());
                pad_right_exec(&mut p, 4);
                text::push_all(&mut line, p.as_slice());
                line.push(' ');
                line.push(' ');
                let d = text::decimal_chars(n);
                let dl = pad_left_exec(&d, 3);
                text::push_all(&mut line, dl.as_slice());
                line.push(' ');
                line.push(' ');
                push_str(&mut line, folder.as_str());
            }
            assert(line@ =~= summary_line(*kc, n as nat, json));
            let ghost before = out@;
            out.push(string_from_chars(line.as_slice()));
            assert(model::str_views(out@) =~= model::str_views(before).push(summary_line(*kc, n as nat, json)));
        }
        i = i + 1;
    }
    assert(ks.subrange(0, ks.len() as int) =~= ks);
    out
}

// ---------------------------------------------------------------- completion

/// `<rid><sep><section>` for each section of the first `j` declarations.
pub open spec fn section_candidates(rid: Seq<char>, sep: Seq<char>, ds: Seq<model::DeclarationV>, j: int) -> Seq<Seq<char>>
    decreases j,
{
    if j <= 0 || j > ds.len() {
        Seq::empty()
    } else {
        section_candidates(rid, sep, ds, j - 1) + Seq::new(
            ds[j - 1].sections.len(),
            |m: int| rid + sep + ds[j - 1].sections[m].0,
        )
    }
}

/// The completion candidates of the first `k` groups: each rendered ID, or each
/// `<ID><sep><section>` when sections are completed.
pub open spec fn candidates_upto(g: grammar::GrammarV, gs: Seq<(model::IdV, Seq<model::DeclarationV>)>, sections: bool, k: int) -> Seq<Seq<char>>
    decreases k,
{
    if k <= 0 || k > gs.len() {
        Seq::empty()
    } else {
        let rid = grammar::render_id(g, gs[k - 1].0);
        candidates_upto(g, gs, sections, k - 1) + if sections {
            section_candidates(rid, g.sep, gs[k - 1].1, gs[k - 1].1.len() as int)
        } else {
            seq![rid]
        }
    }
}

/// Whether completion offers sections: when asked to, or when the typed prefix
/// already holds the section separator.
pub open spec fn completes_sections(g: grammar::GrammarV, prefix: Seq<char>, force: bool) -> bool {
    force || text::find_from(prefix, g.sep, 0) is Some
}

/// Every candidate that starts with the typed prefix.
pub open spec fn completion_set(g: grammar::GrammarV, f: Findings, prefix: Seq<char>, force: bool) -> Set<Seq<char>> {
    let gs = groups_view(f.declarations@);
    candidates_upto(g, gs, completes_sections(g, prefix, force), gs.len() as int).to_set().filter(
        |s: Seq<char>| text::starts_with(s, prefix),
    )
}

fn add_candidate(out: &mut Vec<Vec<char>>, c: Vec<char>, prefix: &[char])
    requires
        order::strictly_sorted(text::views(old(out)@)),
    ensures
        order::strictly_sorted(text::views(final(out)@)),
        forall|x: Seq<char>|
            text::views(final(out)@).contains(x) <==> (text::views(old(out)@).contains(x) || (x == c@
                && text::starts_with(c@, prefix@))),
{
    let ghost before = text::views(out@);
    if text::matches_at(c.as_slice(), 0, prefix) {
        let ghost cv = c@;
        order::insert_sorted(out, c);
        let ghost after = text::views(out@);
        assert forall|x: Seq<char>| after.contains(x) <==> (before.contains(x) || (x == cv && text::starts_with(cv, prefix@))) by {
            assert(after.to_set().contains(x) == after.contains(x));
            assert(before.to_set().contains(x) == before.contains(x));
        }
    }
}

/// The IDs (or `ID<sep>section` candidates) a shell completion offers for a typed
/// prefix: exactly the candidates that start with it, in ascending order, each once.
pub fn complete_ids(g: &Grammar, f: &Findings, prefix: &str, force_sections: bool) -> (r: Vec<String>)
    requires
        g.wf(),
    ensures
        order::strictly_sorted(model::str_views(r@)),
        model::str_views(r@).to_set() == completion_set(g@, *f, prefix@, force_sections),
{
    let pv = chars_of(prefix);
    let sections = force_sections || text::find_seq(pv.as_slice(), g.sep.as_slice(), 0).is_some();
    assert(sections == completes_sections(g@, prefix@, force_sections));
    let ghost gs = groups_view(f.declarations@);
    let mut out: Vec<Vec<char>> = Vec::new();
    let mut k: usize = 0;
    while k < f.declarations.len()
        invariant
            g.wf(),
            k <= f.declarations@.len(),
            gs == groups_view(f.declarations@),
            pv@ == prefix@,
            order::strictly_sorted(text::views(out@)),
            forall|x: Seq<char>|
                #[trigger] text::views(out@).contains(x) <==> (candidates_upto(g@, gs, sections, k as int).contains(x)
                    && text::starts_with(x, prefix@)),
        decreases f.declarations@.len() - k,
    {
        let ghost base = candidates_upto(g@, gs, sections, k as int);
        let rid = g.render_id(&f.declarations[k].id);
        assert(gs[k as int].0 == f.declarations@[k as int].id@);
        if sections {
            let ds = &f.declarations[k].decls;
            let ghost dv = model::decl_views(ds@);
            assert(gs[k as int].1 == dv);
            let mut j: usize = 0;
            assert(base + section_candidates(rid@, g@.sep, dv, 0) =~= base);
            while j < ds.len()
                invariant
                    j <= ds@.len(),
                    dv == model::decl_views(ds@),
                    pv@ == prefix@,
                    order::strictly_sorted(text::views(out@)),
                    forall|x: Seq<char>|
                        #[trigger] text::views(out@).contains(x) <==> ((base + section_candidates(rid@, g@.sep, dv, j as int)).contains(x)
                            && text::starts_with(x, prefix@)),
                decreases ds@.len() - j,
            {
                let secs = &ds[j].sections;
                let ghost sv = dv[j as int].sections;
                assert(sv == model::section_views(secs@));
                let ghost pre = base + section_candidates(rid@, g@.sep, dv, j as int);
                let mut m: usize = 0;
                assert(pre + Seq::new(0 as nat, |t: int| rid@ + g@.sep + sv[t].0) =~= pre);
                while m < secs.len()
                    invariant
                        m <= secs@.len(),
                        sv == model::section_views(secs@),
                        pv@ == prefix@,
                        order::strictly_sorted(text::views(out@)),
                        forall|x: Seq<char>|
                            #[trigger] text::views(out@).contains(x) <==> ((pre + Seq::new(m as nat, |t: int| rid@ + g@.sep + sv[t].0)).contains(x)
                                && text::starts_with(x, prefix@)),
                    decreases secs@.len() - m,
                {
                    let mut c = rid.clone();
                    text::push_all(&mut c, g.sep.as_slice());
                    let key = chars_of(secs[m].0.as_str());
                    text::push_all(&mut c, key.as_slice());
                    let ghost cv = c@;
                    assert(cv == rid@ + g@.sep + sv[m as int].0);
                    let ghost old_seq = pre + Seq::new(m as nat, |t: int| rid@ + g@.sep + sv[t].0);
                    let ghost new_seq = pre + Seq::new((m + 1) as nat, |t: int| rid@ + g@.sep + sv[t].0);
                    assert(new_seq =~= old_seq.push(cv));
                    let ghost before_out = text::views(out@);
                    assert(forall|x: Seq<char>| #[trigger] before_out.contains(x) <==> (old_seq.contains(x) && text::starts_with(x, prefix@)));
                    add_candidate(&mut out, c, pv.as_slice());
                    assert forall|x: Seq<char>| text::views(out@).contains(x) <==> (new_seq.contains(x) && text::starts_with(x, prefix@)) by {
                        assert(before_out.contains(x) <==> (old_seq.contains(x) && text::starts_with(x, prefix@)));
                        if x == cv {
                            assert(new_seq[new_seq.len() - 1] == x);
                        }
                        if new_seq.contains(x) && x != cv {
                            let t = choose|t: int| 0 <= t < new_seq.len() && new_seq[t] == x;
                            assert(old_seq[t] == x);
                        }
                        if old_seq.contains(x) {
                            let t = choose|t: int| 0 <= t < old_seq.len() && old_seq[t] == x;
                            assert(new_seq[t] == x);
                        }
                    }
                    m = m + 1;
                }
                assert(base + section_candidates(rid@, g@.sep, dv, (j + 1) as int) =~= pre + Seq::new(
                    secs@.len() as nat,
                    |t: int| rid@ + g@.sep + sv[t].0,
                ));
                j = j + 1;
            }
            assert(candidates_upto(g@, gs, sections, (k + 1) as int) =~= base + section_candidates(
                rid@,
                g@.sep,
                dv,
                ds@.len() as int,
            ));
        } else {
            let ghost cv = rid@;
            let ghost new_seq = base.push(cv);
            assert(candidates_upto(g@, gs, sections, (k + 1) as int) =~= new_seq);
            let ghost before_out = text::views(out@);
            assert(forall|x: Seq<char>| #[trigger] before_out.contains(x) <==> (base.contains(x) && text::starts_with(x, prefix@)));
            add_candidate(&mut out, rid, pv.as_slice());
            assert forall|x: Seq<char>| text::views(out@).contains(x) <==> (new_seq.contains(x) && text::starts_with(x, prefix@)) by {
                assert(before_out.contains(x) <==> (base.contains(x) && text::starts_with(x, prefix@)));
                if x == cv {
                    assert(new_seq[new_seq.len() - 1] == x);
                }
                if new_seq.contains(x) && x != cv {
                    let t = choose|t: int| 0 <= t < new_seq.len() && new_seq[t] == x;
                    assert(base[t] == x);
                }
                if base.contains(x) {
                    let t = choose|t: int| 0 <= t < base.len() && base[t] == x;
                    assert(new_seq[t] == x);
                }
            }
        }
        k = k + 1;
    }
    let mut r: Vec<String> = Vec::new();
    let mut i: usize = 0;
    while i < out.len()
        invariant
            i <= out@.len(),
            model::str_views(r@) =~= text::views(out@).subrange(0, i as int),
        decreases out@.len() - i,
    {
        let ghost before = r@;
        r.push(string_from_chars(out[i].as_slice()));
        assert(model::str_views(r@) =~= model::str_views(before).push(out@[i as int]@));
        assert(text::views(out@).subrange(0, i + 1) =~= text::views(out@).subrange(0, i as int).push(out@[i as int]@));
        i = i + 1;
    }
    assert(model::str_views(r@) =~= text::views(out@));
    let ghost cands = candidates_upto(g@, gs, sections, gs.len() as int);
    assert(gs.len() == f.declarations@.len());
    assert forall|x: Seq<char>| #[trigger] model::str_views(r@).to_set().contains(x) <==> completion_set(g@, *f, prefix@, force_sections).contains(x) by {
        assert(model::str_views(r@).to_set().contains(x) <==> text::views(out@).contains(x));
        assert(completion_set(g@, *f, prefix@, force_sections).contains(x) <==> (cands.to_set().contains(x) && text::starts_with(x, prefix@)));
    }
    assert(model::str_views(r@).to_set() =~= completion_set(g@, *f, prefix@, force_sections));
    r
}

/// Completion is deterministic: the list it offers is fixed by the scan and the
/// typed prefix, so two lists that meet `complete_ids`'s contract are equal.
pub proof fn lemma_completion_unique(g: grammar::GrammarV, f: Findings, prefix: Seq<char>, force: bool, a: Seq<Seq<char>>, b: Seq<Seq<char>>)
    requires
        order::strictly_sorted(a),
        order::strictly_sorted(b),
        a.to_set() == completion_set(g, f, prefix, force),
        b.to_set() == completion_set(g, f, prefix, force),
    ensures
        a == b,
{
    order::lemma_strictly_sorted_unique(a, b);
}

} // verus!
