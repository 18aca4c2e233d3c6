//! How command results read on the terminal: a check report, the `fmt` summary,
//! an ID proposal, and the `init` transcript. Each renderer returns the lines for
//! standard output and standard error; printing them is the caller's part.
//!
//! A check report: a finding with a path and a line is `path:line: message` on
//! standard output; one with a path but no line (an unreadable file) is
//! `error: path: message` on standard error; one without a path is
//! `<severity>: message` on standard error. A report without errors ends with
//! `success`. In JSON, each finding is one record on standard output.
use vstd::prelude::*;
use crate::agents::AgentsUpdateResult;
use crate::api::{self, Finding, FindingV, Report};
use crate::checker;
use crate::order::{self, KeyV, SortKey};
use crate::queries::{self, json_bool, json_escape, json_opt};
use crate::model::{self, Config, KindConfig};
use crate::rewrite::{self, FmtChange};
use crate::scaffold;
use crate::text::{self, chars_of, decimal, string_from_chars};

verus! {

/// Lines for standard output and standard error.
pub struct Output {
    pub stdout: Vec<String>,
    pub stderr: Vec<String>,
}

pub open spec fn out_views(o: Output) -> (Seq<Seq<char>>, Seq<Seq<char>>) {
    (model::str_views(o.stdout@), model::str_views(o.stderr@))
}

// ---------------------------------------------------------------- check reports

/// Where one finding goes, and as what: `(true, line)` for standard output.
pub open spec fn finding_text(f: FindingV) -> (bool, Seq<char>) {
    match (f.path, f.line) {
        (Some(p), Some(l)) => (true, p + seq![':'] + decimal(l as nat) + seq![':', ' '] + f.message),
        (Some(p), None) => (false, "error: "@ + p + seq![':', ' '] + f.message),
        (None, _) => (false, f.severity + seq![':', ' '] + f.message),
    }
}

/// The findings' lines, split by stream.
pub open spec fn findings_text(fs: Seq<FindingV>) -> (Seq<Seq<char>>, Seq<Seq<char>>)
    decreases fs.len(),
{
    if fs.len() == 0 {
        (Seq::empty(), Seq::empty())
    } else {
        let (o, e) = findings_text(fs.drop_last());
        let (to_out, line) = finding_text(fs.last());
        if to_out {
            (o.push(line), e)
        } else {
            (o, e.push(line))
        }
    }
}

/// A text report: errors, then warnings, then `success` when there is no error.
pub open spec fn report_text(errors: Seq<FindingV>, warnings: Seq<FindingV>) -> (Seq<Seq<char>>, Seq<Seq<char>>) {
    let (o, e) = findings_text(errors + warnings);
    if errors.len() == 0 {
        (o.push("success"@), e)
    } else {
        (o, e)
    }
}

/// One finding as a JSON record.
pub open spec fn finding_json(f: FindingV) -> Seq<char> {
    "{\"severity\":\""@ + json_escape(f.severity) + "\",\"code\":\""@ + json_escape(f.code) + "\",\"path\":"@
        + json_opt(f.path) + ",\"line\":"@ + (match f.line {
        Some(l) => decimal(l as nat),
        None => "null"@,
    }) + ",\"sites\":["@ + sites_json(f.sites) + "],\"message\":\""@ + json_escape(f.message) + "\"}"@
}

pub open spec fn site_json(s: (Seq<char>, usize)) -> Seq<char> {
    "{\"path\":\""@ + json_escape(s.0) + "\",\"line\":"@ + decimal(s.1 as nat) + "}"@
}

pub open spec fn sites_json(ss: Seq<(Seq<char>, usize)>) -> Seq<char>
    decreases ss.len(),
{
    if ss.len() == 0 {
        Seq::empty()
    } else if ss.len() == 1 {
        site_json(ss[0])
    } else {
        sites_json(ss.drop_last()) + seq![','] + site_json(ss.last())
    }
}

fn finding_json_exec(f: &Finding) -> (r: String)
    ensures
        r@ == finding_json(f@),
{
    let ghost fv = f@;
    let mut out: Vec<char> = Vec::new();
    queries::push_str(&mut out, "{\"severity\":\"");
    let a = queries::json_escape_exec(f.severity.as_str());
    queries::push_str(&mut out, a.as_str());
    queries::push_str(&mut out, "\",\"code\":\"");
    let b = queries::json_escape_exec(f.code.as_str());
    queries::push_str(&mut out, b.as_str());
    queries::push_str(&mut out, "\",\"path\":");
    match &f.path {
        Some(p) => {
            out.push('"');
            let e = queries::json_escape_exec(p.as_str());
            queries::push_str(&mut out, e.as_str());
            out.push('"');
        },
        None => queries::push_str(&mut out, "null"),
    }
    queries::push_str(&mut out, ",\"line\":");
    match f.line {
        Some(l) => queries::push_decimal(&mut out, l),
        None => queries::push_str(&mut out, "null"),
    }
    queries::push_str(&mut out, ",\"sites\":[");
    let ghost pre = out@;
    let mut i: usize = 0;
    while i < f.sites.len()
        invariant
            i <= f.sites@.len(),
            fv == f@,
            out@ == pre + sites_json(fv.sites.subrange(0, i as int)),
        decreases f.sites@.len() - i,
    {
        let ghost before = out@;
        if i > 0 {
            out.push(',');
        }
        let s = &f.sites[i];
        queries::push_str(&mut out, "{\"path\":\"");
        let e = queries::json_escape_exec(s.path.as_str());
        queries::push_str(&mut out, e.as_str());
        queries::push_str(&mut out, "\",\"line\":");
        queries::push_decimal(&mut out, s.line);
        queries::push_str(&mut out, "}");
        proof {
            let p = fv.sites.subrange(0, i + 1);
            assert(p.drop_last() =~= fv.sites.subrange(0, i as int));
            assert(p.last() == (s.path@, s.line));
            if i > 0 {
                assert(out@ =~= pre + (sites_json(fv.sites.subrange(0, i as int)) + seq![','] + site_json(p.last())));
            } else {
                assert(out@ =~= pre + site_json(p.last()));
            }
        }
        i = i + 1;
    }
    assert(fv.sites.subrange(0, fv.sites.len() as int) =~= fv.sites);
    queries::push_str(&mut out, "],\"message\":\"");
    let m = queries::json_escape_exec(f.message.as_str());
    queries::push_str(&mut out, m.as_str());
    queries::push_str(&mut out, "\"}");
    assert(out@ =~= finding_json(fv));
    string_from_chars(out.as_slice())
}

fn finding_text_exec(f: &Finding) -> (r: (bool, String))
    ensures
        (r.0, r.1@) == finding_text(f@),
{
    let mut out: Vec<char> = Vec::new();
    match (&f.path, f.line) {
        (Some(p), Some(l)) => {
            queries::push_str(&mut out, p.as_str());
            out.push(':');
            queries::push_decimal(&mut out, l);
            out.push(':');
            out.push(' ');
            queries::push_str(&mut out, f.message.as_str());
            assert(out@ =~= finding_text(f@).1);
            (true, string_from_chars(out.as_slice()))
        },
        (Some(p), None) => {
            queries::push_str(&mut out, "error: ");
            queries::push_str(&mut out, p.as_str());
            out.push(':');
            out.push(' ');
            queries::push_str(&mut out, f.message.as_str());
            assert(out@ =~= finding_text(f@).1);
            (false, string_from_chars(out.as_slice()))
        },
        (None, _) => {
            queries::push_str(&mut out, f.severity.as_str());
            out.push(':');
            out.push(' ');
            queries::push_str(&mut out, f.message.as_str());
            assert(out@ =~= finding_text(f@).1);
            (false, string_from_chars(out.as_slice()))
        },
    }
}

/// The lines of a report, as text or as JSON records (all on standard output).
pub open spec fn report_lines(errors: Seq<FindingV>, warnings: Seq<FindingV>, json: bool) -> (Seq<Seq<char>>, Seq<Seq<char>>) {
    if json {
        let all = errors + warnings;
        (Seq::new(all.len(), |i: int| finding_json(all[i])), Seq::empty())
    } else {
        report_text(errors, warnings)
    }
}

/// A passing check (no error, whatever the warnings) ends its text report with
/// `success` and exits 0 when every file could be read; a clean check (no error,
/// no warning) prints nothing else in text and nothing at all in JSON.
pub proof fn lemma_passing_report_output(warnings: Seq<FindingV>)
    ensures
        report_lines(Seq::empty(), warnings, false).0.last() == "success"@,
        api::check_exit_code(false, 0) == 0,
        report_lines(Seq::empty(), Seq::empty(), false) == (seq!["success"@], Seq::<Seq<char>>::empty()),
        report_lines(Seq::empty(), Seq::empty(), true) == (Seq::<Seq<char>>::empty(), Seq::<Seq<char>>::empty()),
{
    assert(Seq::<FindingV>::empty() + Seq::<FindingV>::empty() =~= Seq::<FindingV>::empty());
    assert(findings_text(Seq::<FindingV>::empty()) == (Seq::<Seq<char>>::empty(), Seq::<Seq<char>>::empty()));
    assert(seq!["success"@] =~= Seq::<Seq<char>>::empty().push("success"@));
}

fn push_finding(f: &Finding, json: bool, stdout: &mut Vec<String>, stderr: &mut Vec<String>)
    ensures
        json ==> model::str_views(final(stdout)@) == model::str_views(old(stdout)@).push(finding_json(f@))
            && final(stderr)@ == old(stderr)@,
        !json ==> ({
            let (to_out, line) = finding_text(f@);
            if to_out {
                model::str_views(final(stdout)@) == model::str_views(old(stdout)@).push(line)
                    && final(stderr)@ == old(stderr)@
            } else {
                model::str_views(final(stderr)@) == model::str_views(old(stderr)@).push(line)
                    && final(stdout)@ == old(stdout)@
            }
        }),
{
    let ghost so = stdout@;
    let ghost se = stderr@;
    if json {
        stdout.push(finding_json_exec(f));
        assert(model::str_views(stdout@) =~= model::str_views(so).push(finding_json(f@)));
    } else {
        let (to_out, line) = finding_text_exec(f);
        if to_out {
            stdout.push(line);
            assert(model::str_views(stdout@) =~= model::str_views(so).push(finding_text(f@).1));
        } else {
            stderr.push(line);
            assert(model::str_views(stderr@) =~= model::str_views(se).push(finding_text(f@).1));
        }
    }
}

pub fn render_report(report: &Report, json: bool) -> (r: Output)
    ensures
        out_views(r) == report_lines(api::finding_views(report.errors@), api::finding_views(report.warnings@), json),
{
    let ghost ev = api::finding_views(report.errors@);
    let ghost wv = api::finding_views(report.warnings@);
    let ghost all = ev + wv;
    let mut stdout: Vec<String> = Vec::new();
    let mut stderr: Vec<String> = Vec::new();
    let mut i: usize = 0;
    while i < report.errors.len()
        invariant
            i <= report.errors@.len(),
            ev == api::finding_views(report.errors@),
            wv == api::finding_views(report.warnings@),
            all == ev + wv,
            json ==> model::str_views(stdout@) =~= Seq::new(i as nat, |m: int| finding_json(all[m])) && stderr@.len() == 0,
            !json ==> (model::str_views(stdout@), model::str_views(stderr@)) == findings_text(all.subrange(0, i as int)),
        decreases report.errors@.len() - i,
    {
        let f = &report.errors[i];
        assert(all[i as int] == f@);
        proof {
            let p = all.subrange(0, i + 1);
            assert(p.drop_last() =~= all.subrange(0, i as int));
            assert(p.last() == f@);
        }
        push_finding(f, json, &mut stdout, &mut stderr);
        i = i + 1;
    }
    let mut j: usize = 0;
    while j < report.warnings.len()
        invariant
            j <= report.warnings@.len(),
            i == report.errors@.len(),
            ev == api::finding_views(report.errors@),
            wv == api::finding_views(report.warnings@),
            all == ev + wv,
            json ==> model::str_views(stdout@) =~= Seq::new((i + j) as nat, |m: int| finding_json(all[m])) && stderr@.len() == 0,
            !json ==> (model::str_views(stdout@), model::str_views(stderr@)) == findings_text(all.subrange(0, i + j)),
        decreases report.warnings@.len() - j,
    {
        let f = &report.warnings[j];
        assert(all[i + j] == f@);
        proof {
            let p = all.subrange(0, i + j + 1);
            assert(p.drop_last() =~= all.subrange(0, i + j));
            assert(p.last() == f@);
        }
        push_finding(f, json, &mut stdout, &mut stderr);
        j = j + 1;
    }
    assert(all.subrange(0, all.len() as int) =~= all);
    if !json && report.errors.len() == 0 {
        let ghost so = stdout@;
        stdout.push(String::from_str("success"));
        assert(model::str_views(stdout@) =~= model::str_views(so).push("success"@));
    }
    Output { stdout, stderr }
}

// ---------------------------------------------------------------- fmt summary

/// A line `fmt` changed: its file, line, and the change.
pub struct FmtChangeAt {
    pub path: String,
    pub line: usize,
    pub change: FmtChange,
}

pub open spec fn change_paths(cs: Seq<FmtChangeAt>) -> Seq<Seq<char>> {
    Seq::new(cs.len(), |i: int| cs[i].path@)
}

/// Distinct values of a sorted sequence, in order.
pub open spec fn dedup_sorted(ps: Seq<Seq<char>>) -> Seq<Seq<char>>
    decreases ps.len(),
{
    if ps.len() == 0 {
        Seq::empty()
    } else {
        let prev = dedup_sorted(ps.drop_last());
        if prev.len() > 0 && prev.last() == ps.last() {
            prev
        } else {
            prev.push(ps.last())
        }
    }
}

/// The changed files, each once, in path order.
pub open spec fn changed_files(cs: Seq<FmtChangeAt>) -> Seq<Seq<char>> {
    let ps = change_paths(cs);
    dedup_sorted(order::sort_by_keys(ps, Seq::new(ps.len(), |i: int| KeyV { path: Some(ps[i]), line: 0, col: 0, text: Seq::empty() })))
}

pub open spec fn count_path(ps: Seq<Seq<char>>, p: Seq<char>) -> nat
    decreases ps.len(),
{
    if ps.len() == 0 {
        0
    } else {
        count_path(ps.drop_last(), p) + if ps.last() == p {
            1nat
        } else {
            0nat
        }
    }
}

/// What `fmt` prints: with `--write`, `rewrote N reference(s)` and a count per
/// changed file; otherwise `path:line: label` per change.
pub open spec fn fmt_summary(root: Seq<char>, cs: Seq<FmtChangeAt>, write: bool) -> Seq<Seq<char>> {
    if write {
        let files = changed_files(cs);
        let head = "rewrote "@ + decimal(cs.len()) + " reference"@ + (if cs.len() == 1 {
            Seq::empty()
        } else {
            seq!['s']
        }) + (if files.len() == 0 {
            Seq::empty()
        } else {
            seq![':']
        });
        seq![head] + Seq::new(
            files.len(),
            |i: int|
                seq![' ', ' '] + checker::display_path(root, files[i]) + seq![' ', '('] + decimal(
                    count_path(change_paths(cs), files[i]),
                ) + seq![')'],
        )
    } else {
        Seq::new(
            cs.len(),
            |i: int|
                checker::display_path(root, cs[i].path@) + seq![':'] + decimal(cs[i].line as nat) + seq![':', ' ']
                    + rewrite::fmt_label(cs[i].change),
        )
    }
}

/// `fmt` exits 1 when it only checked and something would change.
pub open spec fn fmt_exit_code(write: bool, changes: nat) -> u8 {
    if write || changes == 0 {
        0
    } else {
        1
    }
}

pub fn fmt_exit(write: bool, changes: &Vec<FmtChangeAt>) -> (r: u8)
    ensures
        r == fmt_exit_code(write, changes@.len()),
{
    if write || changes.len() == 0 {
        0
    } else {
        1
    }
}

fn count_path_exec(cs: &Vec<FmtChangeAt>, p: &String) -> (r: usize)
    ensures
        r == count_path(change_paths(cs@), p@),
{
    let ghost ps = change_paths(cs@);
    let mut n: usize = 0;
    let mut i: usize = 0;
    while i < cs.len()
        invariant
            i <= cs@.len(),
            ps == change_paths(cs@),
            n == count_path(ps.subrange(0, i as int), p@),
            n <= i,
        decreases cs@.len() - i,
    {
        proof {
            let q = ps.subrange(0, i + 1);
            assert(q.drop_last() =~= ps.subrange(0, i as int));
        }
        if cs[i].path.eq(p) {
            n = n + 1;
        }
        i = i + 1;
    }
    assert(ps.subrange(0, ps.len() as int) =~= ps);
    n
}

pub fn fmt_summary_exec(root: &str, cs: &Vec<FmtChangeAt>, write: bool) -> (r: Vec<String>)
    ensures
        model::str_views(r@) == fmt_summary(root@, cs@, write),
{
    let ghost ps = change_paths(cs@);
    let mut lines: Vec<String> = Vec::new();
    if write {
        let mut keys: Vec<SortKey> = Vec::new();
        let mut i: usize = 0;
        while i < cs.len()
            invariant
                i <= cs@.len(),
                ps == change_paths(cs@),
                order::key_views(keys@) =~= Seq::new(i as nat, |m: int| KeyV { path: Some(ps[m]), line: 0, col: 0, text: Seq::empty() }),
            decreases cs@.len() - i,
        {
            let ghost before = keys@;
            keys.push(SortKey { path: Some(chars_of(cs[i].path.as_str())), line: 0, col: 0, text: Vec::new() });
            assert(order::key_views(keys@) =~= order::key_views(before).push(KeyV { path: Some(ps[i as int]), line: 0, col: 0, text: Seq::empty() }));
            i = i + 1;
        }
        let p = order::sort_order(&keys);
        let ghost ks = order::key_views(keys@);
        let ghost sorted = Seq::new(ps.len(), |m: int| ps[p@[m] as int]);
        proof {
            order::lemma_sort_by_keys_is(ps, ks, p@);
            assert(ks =~= Seq::new(ps.len(), |m: int| KeyV { path: Some(ps[m]), line: 0, col: 0, text: Seq::empty() }));
        }
        let mut files: Vec<String> = Vec::new();
        let mut j: usize = 0;
        while j < p.len()
            invariant
                j <= p@.len(),
                order::is_order(ks, p@),
                ks.len() == cs@.len(),
                ps == change_paths(cs@),
                sorted == Seq::new(ps.len(), |m: int| ps[p@[m] as int]),
                crate::model::str_views(files@) == dedup_sorted(sorted.subrange(0, j as int)),
            decreases p@.len() - j,
        {
            let c = &cs[p[j]];
            assert(sorted[j as int] == c.path@);
            proof {
                let q = sorted.subrange(0, j + 1);
                assert(q.drop_last() =~= sorted.subrange(0, j as int));
            }
            let n = files.len();
            let ghost before = files@;
            if !(n > 0 && files[n - 1].eq(&c.path)) {
                files.push(c.path.clone());
                assert(crate::model::str_views(files@) =~= crate::model::str_views(before).push(c.path@));
            }
            j = j + 1;
        }
        assert(sorted.subrange(0, sorted.len() as int) =~= sorted);
        let ghost fv = crate::model::str_views(files@);
        assert(fv == changed_files(cs@));
        let mut head: Vec<char> = Vec::new();
        queries::push_str(&mut head, "rewrote ");
        queries::push_decimal(&mut head, cs.len());
        queries::push_str(&mut head, " reference");
        if cs.len() != 1 {
            head.push('s');
        }
        if files.len() > 0 {
            head.push(':');
        }
        let ghost hs = "rewrote "@ + decimal(cs@.len()) + " reference"@ + (if cs@.len() == 1 {
            Seq::empty()
        } else {
            seq!['s']
        }) + (if fv.len() == 0 {
            Seq::empty()
        } else {
            seq![':']
        });
        assert(head@ =~= hs);
        lines.push(string_from_chars(head.as_slice()));
        let mut k: usize = 0;
        while k < files.len()
            invariant
                k <= files@.len(),
                fv == crate::model::str_views(files@),
                ps == change_paths(cs@),
                lines@.len() == k + 1,
                model::str_views(lines@).subrange(1, k + 1) =~= Seq::new(
                    k as nat,
                    |m: int| seq![' ', ' '] + checker::display_path(root@, fv[m]) + seq![' ', '('] + decimal(count_path(ps, fv[m])) + seq![')'],
                ),
                model::str_views(lines@)[0] == head@,
            decreases files@.len() - k,
        {
            let mut line: Vec<char> = Vec::new();
            line.push(' ');
            line.push(' ');
            let d = checker::display_path_exec(root, files[k].as_str());
            queries::push_str(&mut line, d.as_str());
            line.push(' ');
            line.push('(');
            let n = count_path_exec(cs, &files[k]);
            queries::push_decimal(&mut line, n);
            line.push(')');
            assert(line@ =~= seq![' ', ' '] + checker::display_path(root@, fv[k as int]) + seq![' ', '('] + decimal(count_path(ps, fv[k as int])) + seq![')']);
            let ghost before = lines@;
            lines.push(string_from_chars(line.as_slice()));
            assert(model::str_views(lines@).subrange(1, k + 2) =~= model::str_views(before).subrange(1, k + 1).push(line@));
            k = k + 1;
        }
        assert(model::str_views(lines@) =~= seq![hs] + model::str_views(lines@).subrange(1, lines@.len() as int));
        assert(model::str_views(lines@) =~= fmt_summary(root@, cs@, true));
    } else {
        let mut i: usize = 0;
        while i < cs.len()
            invariant
                i <= cs@.len(),
                model::str_views(lines@) =~= fmt_summary(root@, cs@, false).subrange(0, i as int),
            decreases cs@.len() - i,
        {
            let c = &cs[i];
            let mut line: Vec<char> = Vec::new();
            let d = checker::display_path_exec(root, c.path.as_str());
            queries::push_str(&mut line, d.as_str());
            line.push(':');
            queries::push_decimal(&mut line, c.line);
            line.push(':');
            line.push(' ');
            let l = c.change.label();
            queries::push_str(&mut line, l.as_str());
            assert(line@ =~= checker::display_path(root@, cs@[i as int].path@) + seq![':'] + decimal(cs@[i as int].line as nat) + seq![':', ' '] + rewrite::fmt_label(cs@[i as int].change));
            let ghost before = lines@;
            lines.push(string_from_chars(line.as_slice()));
            assert(model::str_views(lines@) =~= model::str_views(before).push(fmt_summary(root@, cs@, false)[i as int]));
            i = i + 1;
        }
        assert(fmt_summary(root@, cs@, false).subrange(0, cs@.len() as int) =~= fmt_summary(root@, cs@, false));
    }
    lines
}

// ---------------------------------------------------------------- init transcript

/// The transcript line for an existing entrypoint after its block was spliced.
pub open spec fn update_label(r: AgentsUpdateResult, rel: Seq<char>) -> Seq<char> {
    match r {
        AgentsUpdateResult::Appended => "appended "@ + rel,
        AgentsUpdateResult::Updated => "updated "@ + rel,
        AgentsUpdateResult::Unchanged => "exists "@ + rel,
    }
}

pub fn update_label_exec(r: AgentsUpdateResult, rel: &str) -> (s: String)
    ensures
        s@ == update_label(r, rel@),
{
    let mut s = match r {
        AgentsUpdateResult::Appended => String::from_str("appended "),
        AgentsUpdateResult::Updated => String::from_str("updated "),
        AgentsUpdateResult::Unchanged => String::from_str("exists "),
    };
    s.append(rel);
    s
}

/// The `next:` hints after `init` (with or without `--docs`).
pub open spec fn init_next(docs: bool) -> Seq<Seq<char>> {
    if docs {
        seq![
            Seq::empty(),
            "next:"@,
            "  1. run `grund check` \u{2014} a freshly scaffolded tree is clean"@,
            "  2. allocate an ID:  ID=$(grund id FS \"\u{2026}\")  then write  docs/functional-spec/$ID.md"@,
            "     (H1: `# <ID>: <one-line statement of the behavior>`)"@,
            "  3. cite it as \u{a7}<ID> from the docs and e2e tests that depend on it, then `grund check` again"@,
            "see AGENTS.md for the full workflow."@,
        ]
    } else {
        seq![
            Seq::empty(),
            "next:"@,
            "  1. re-run with --docs to scaffold docs/ and e2e/ (or create those folders yourself) \u{2014} until then `grund check` has nothing to scan"@,
            "  2. run `grund check` \u{2014} a scaffolded tree is clean"@,
            "  3. allocate an ID:  ID=$(grund id FS \"\u{2026}\")  then write  docs/functional-spec/$ID.md"@,
            "see AGENTS.md for the full workflow."@,
        ]
    }
}

pub fn init_next_exec(docs: bool) -> (r: Vec<String>)
    ensures
        model::str_views(r@) == init_next(docs),
{
    let r = if docs {
        vec![
            String::new(),
            String::from_str("next:"),
            String::from_str("  1. run `grund check` \u{2014} a freshly scaffolded tree is clean"),
            String::from_str("  2. allocate an ID:  ID=$(grund id FS \"\u{2026}\")  then write  docs/functional-spec/$ID.md"),
            String::from_str("     (H1: `# <ID>: <one-line statement of the behavior>`)"),
            String::from_str("  3. cite it as \u{a7}<ID> from the docs and e2e tests that depend on it, then `grund check` again"),
            String::from_str("see AGENTS.md for the full workflow."),
        ]
    } else {
        vec![
            String::new(),
            String::from_str("next:"),
            String::from_str("  1. re-run with --docs to scaffold docs/ and e2e/ (or create those folders yourself) \u{2014} until then `grund check` has nothing to scan"),
            String::from_str("  2. run `grund check` \u{2014} a scaffolded tree is clean"),
            String::from_str("  3. allocate an ID:  ID=$(grund id FS \"\u{2026}\")  then write  docs/functional-spec/$ID.md"),
            String::from_str("see AGENTS.md for the full workflow."),
        ]
    };
    assert(model::str_views(r@) =~= init_next(docs));
    r
}

// ---------------------------------------------------------------- ID proposals

/// A proposed new ID.
pub struct IdProposal {
    pub id: String,
    pub kind: String,
    pub number: Option<u32>,
    pub slug: String,
    pub folder: Option<String>,
    pub e2e_case_dir: Option<String>,
}

/// What `id` prints: the JSON record; or the ID, and with `--explain` a `next:`
/// hint on standard error.
pub open spec fn id_proposal_output(p: IdProposal, json: bool, explain: bool) -> (Seq<Seq<char>>, Seq<Seq<char>>) {
    if json {
        (
            seq![
                "{\"id\":\""@ + json_escape(p.id@) + "\",\"kind\":\""@ + json_escape(p.kind@) + "\",\"number\":"@
                    + (match p.number {
                    Some(n) => decimal(n as nat),
                    None => "null"@,
                }) + ",\"slug\":\""@ + json_escape(p.slug@) + "\",\"folder\":\""@ + json_escape(
                    match p.folder {
                        Some(f) => f@,
                        None => Seq::empty(),
                    },
                ) + "\"}"@,
            ],
            Seq::empty(),
        )
    } else if !explain {
        (seq![p.id@], Seq::empty())
    } else {
        let hint = match p.folder {
            Some(f) => if p.kind@ == "E2E"@ {
                let dir = match p.e2e_case_dir {
                    Some(d) => d@,
                    None => p.id@,
                };
                "next: create the case directory at "@ + f@ + seq!['/'] + dir
                    + "/ with expected.exit and fixtures, then cite it as \u{a7}"@ + p.id@
            } else {
                "next: write the declaration at "@ + f@ + seq!['/'] + p.id@ + ".md  (H1: `# "@ + p.id@
                    + ": <one-line statement>`), then cite it as \u{a7}"@ + p.id@
            },
            None => "next: write the declaration with H1 `# "@ + p.id@ + ": <one-line statement>`, then cite it as \u{a7}"@
                + p.id@,
        };
        (seq![p.id@], seq![hint])
    }
}

pub fn id_proposal_output_exec(p: &IdProposal, json: bool, explain: bool) -> (r: Output)
    ensures
        out_views(r) == id_proposal_output(*p, json, explain),
{
    if json {
        let mut out: Vec<char> = Vec::new();
        queries::push_str(&mut out, "{\"id\":\"");
        let a = queries::json_escape_exec(p.id.as_str());
        queries::push_str(&mut out, a.as_str());
        queries::push_str(&mut out, "\",\"kind\":\"");
        let b = queries::json_escape_exec(p.kind.as_str());
        queries::push_str(&mut out, b.as_str());
        queries::push_str(&mut out, "\",\"number\":");
        match p.number {
            Some(n) => queries::push_decimal(&mut out, n as usize),
            None => queries::push_str(&mut out, "null"),
        }
        queries::push_str(&mut out, ",\"slug\":\"");
        let c = queries::json_escape_exec(p.slug.as_str());
        queries::push_str(&mut out, c.as_str());
        queries::push_str(&mut out, "\",\"folder\":\"");
        let folder = match &p.folder {
            Some(f) => f.clone(),
            None => String::new(),
        };
        let d = queries::json_escape_exec(folder.as_str());
        queries::push_str(&mut out, d.as_str());
        queries::push_str(&mut out, "\"}");
        let r = Output { stdout: vec![string_from_chars(out.as_slice())], stderr: Vec::new() };
        assert(model::str_views(r.stdout@) =~= id_proposal_output(*p, json, explain).0);
        assert(model::str_views(r.stderr@) =~= Seq::empty());
        return r;
    }
    let stdout = vec![p.id.clone()];
    if !explain {
        let r = Output { stdout, stderr: Vec::new() };
        assert(model::str_views(r.stdout@) =~= seq![p.id@]);
        assert(model::str_views(r.stderr@) =~= Seq::empty());
        return r;
    }
    let mut hint: Vec<char> = Vec::new();
    match &p.folder {
        Some(f) => {
            if p.kind.eq(&String::from_str("E2E")) {
                let dir = match &p.e2e_case_dir {
                    Some(d) => d.clone(),
                    None => p.id.clone(),
                };
                queries::push_str(&mut hint, "next: create the case directory at ");
                queries::push_str(&mut hint, f.as_str());
                hint.push('/');
                queries::push_str(&mut hint, dir.as_str());
                queries::push_str(&mut hint, "/ with expected.exit and fixtures, then cite it as \u{a7}");
                queries::push_str(&mut hint, p.id.as_str());
                assert(hint@ =~= id_proposal_output(*p, json, explain).1[0]);
            } else {
                queries::push_str(&mut hint, "next: write the declaration at ");
                queries::push_str(&mut hint, f.as_str());
                hint.push('/');
                queries::push_str(&mut hint, p.id.as_str());
                queries::push_str(&mut hint, ".md  (H1: `# ");
                queries::push_str(&mut hint, p.id.as_str());
                queries::push_str(&mut hint, ": <one-line statement>`), then cite it as \u{a7}");
                queries::push_str(&mut hint, p.id.as_str());
                assert(hint@ =~= id_proposal_output(*p, json, explain).1[0]);
            }
        },
        None => {
            queries::push_str(&mut hint, "next: write the declaration with H1 `# ");
            queries::push_str(&mut hint, p.id.as_str());
            queries::push_str(&mut hint, ": <one-line statement>`, then cite it as \u{a7}");
            queries::push_str(&mut hint, p.id.as_str());
            assert(hint@ =~= id_proposal_output(*p, json, explain).1[0]);
        },
    }
    let r = Output { stdout, stderr: vec![string_from_chars(hint.as_slice())] };
    assert(model::str_views(r.stdout@) =~= seq![p.id@]);
    assert(model::str_views(r.stderr@) =~= id_proposal_output(*p, json, explain).1);
    r
}

// ---------------------------------------------------------------- the effective configuration

/// `key = "value"`.
pub open spec fn quoted(key: Seq<char>, v: Seq<char>) -> Seq<char> {
    key + " = \""@ + v + "\""@
}

/// `key = value`.
pub open spec fn plain(key: Seq<char>, v: Seq<char>) -> Seq<char> {
    key + " = "@ + v
}

pub open spec fn kind_lines(k: KindConfig) -> Seq<Seq<char>> {
    let head = seq!["[[kinds]]"@, quoted("prefix"@, scaffold::escape_toml_basic(k.prefix@))];
    let with_folder = match k.folder {
        Some(f) => head.push(quoted("folder"@, scaffold::escape_toml_basic(f@))),
        None => head,
    };
    let with_title = match k.title {
        Some(t) => with_folder.push(quoted("title"@, scaffold::escape_toml_basic(t@))),
        None => with_folder,
    };
    with_title.push(Seq::empty())
}

/// The `[[kinds]]` tables of the first `n` kinds.
pub open spec fn kinds_lines(ks: Seq<KindConfig>, n: int) -> Seq<Seq<char>>
    decreases n,
{
    if n <= 0 || n > ks.len() {
        Seq::empty()
    } else {
        kinds_lines(ks, n - 1) + kind_lines(ks[n - 1])
    }
}

pub open spec fn head_lines(c: Config) -> Seq<Seq<char>> {
    let v = seq!["grund_config_version = 1"@];
    let v = match c.project_name {
        Some(n) => v.push(quoted("project_name"@, scaffold::escape_toml_basic(n@))),
        None => v,
    };
    v + seq![
        Seq::empty(),
        "[reference]"@,
        quoted("marker"@, c.marker@),
        quoted("trigger"@, c.trigger@),
        plain("strict"@, json_bool(c.strict)),
        plain("require_grounding"@, json_bool(c.require_grounding)),
        quoted("inline_style"@, c.inline_style@),
        plain("inline_note_suggested_lines"@, decimal(c.inline_note_suggested_lines as nat)),
        plain("inline_note_max_lines"@, decimal(c.inline_note_max_lines as nat)),
        plain("inline_note_max_columns"@, decimal(c.inline_note_max_columns as nat)),
        plain("warn_on_suggested"@, json_bool(c.warn_on_suggested)),
        Seq::empty(),
    ]
}

pub open spec fn id_lines(c: Config) -> Seq<Seq<char>> {
    let v = seq![
        "[id]"@,
        quoted("format"@, c.id_format@),
        quoted("section_separator"@, c.section_separator@),
        quoted("section_heading_levels"@, c.section_heading_levels@),
    ];
    let v = if text::find_from(c.id_format@, "{number}"@, 0) is Some {
        v.push(quoted("number_pattern"@, scaffold::escape_toml_basic(c.number_pattern@)))
    } else {
        v
    };
    let v = if text::find_from(c.id_format@, "{slug}"@, 0) is Some {
        v.push(quoted("slug_pattern"@, scaffold::escape_toml_basic(c.slug_pattern@)))
    } else {
        v
    };
    v.push(Seq::empty())
}

pub open spec fn tail_lines(c: Config) -> Seq<Seq<char>> {
    let v = seq![
        "[scan]"@,
        plain(
            "include"@,
            scaffold::format_toml_string_list(
                match c.scan_roots {
                    Some(r) => model::str_views(r@),
                    None => Seq::empty(),
                },
            ),
        ),
        plain("exclude"@, scaffold::format_toml_string_list(model::str_views(c.exclude@))),
        plain("extensions"@, scaffold::format_toml_string_list(model::str_views(c.extensions@))),
        plain("comment_prefixes"@, scaffold::format_toml_string_list(model::str_views(c.comment_prefixes@))),
        plain("docstring_python"@, json_bool(c.docstring_python)),
        plain("respect_gitignore"@, json_bool(c.respect_gitignore)),
        Seq::empty(),
        "[output]"@,
        quoted("format"@, c.output_format@),
        "color = \"auto\""@,
        plain("relative_paths"@, json_bool(c.relative_paths)),
        Seq::empty(),
        "[fmt.cross_refs]"@,
        plain("enabled"@, json_bool(c.fmt_cross_refs_enabled)),
        quoted("anchor_format"@, c.cross_ref_anchor_format@),
    ];
    if c.workspace_declared {
        v + seq![
            Seq::empty(),
            "[workspace]"@,
            plain("members"@, scaffold::format_toml_string_list(model::str_views(c.workspace_members@))),
            plain("include_root"@, json_bool(c.workspace_include_root)),
        ]
    } else {
        v
    }
}

/// The effective configuration as `grund config show` prints it, line by line.
pub open spec fn effective_config_lines(c: Config) -> Seq<Seq<char>> {
    head_lines(c) + id_lines(c) + kinds_lines(c.kinds@, c.kinds@.len() as int) + tail_lines(c)
}

fn quoted_exec(key: &str, v: &[char]) -> (r: Vec<char>)
    ensures
        r@ == quoted(key@, v@),
{
    let mut out = chars_of(key);
    queries::push_str(&mut out, " = \"");
    text::push_all(&mut out, v);
    queries::push_str(&mut out, "\"");
    out
}

fn plain_exec(key: &str, v: &[char]) -> (r: Vec<char>)
    ensures
        r@ == plain(key@, v@),
{
    let mut out = chars_of(key);
    queries::push_str(&mut out, " = ");
    text::push_all(&mut out, v);
    out
}

fn bool_chars(b: bool) -> (r: Vec<char>)
    ensures
        r@ == json_bool(b),
{
    if b {
        chars_of("true")
    } else {
        chars_of("false")
    }
}

fn escaped(s: &str) -> (r: Vec<char>)
    ensures
        r@ == scaffold::escape_toml_basic(s@),
{
    let e = scaffold::escape_toml_basic_exec(s);
    chars_of(e.as_str())
}

fn toml_list(v: &Vec<String>) -> (r: Vec<char>)
    ensures
        r@ == scaffold::format_toml_string_list(model::str_views(v@)),
{
    let s = scaffold::format_toml_string_list_exec(v);
    chars_of(s.as_str())
}

fn push_line(out: &mut Vec<Vec<char>>, l: Vec<char>)
    ensures
        text::views(final(out)@) == text::views(old(out)@).push(l@),
{
    let ghost before = text::views(out@);
    out.push(l);
    assert(text::views(out@) =~= before.push(l@));
}

fn kind_lines_exec(out: &mut Vec<Vec<char>>, k: &KindConfig)
    ensures
        text::views(final(out)@) == text::views(old(out)@) + kind_lines(*k),
{
    let ghost before = text::views(out@);
    push_line(out, chars_of("[[kinds]]"));
    push_line(out, quoted_exec("prefix", escaped(k.prefix.as_str()).as_slice()));
    match &k.folder {
        Some(f) => push_line(out, quoted_exec("folder", escaped(f.as_str()).as_slice())),
        None => {},
    }
    match &k.title {
        Some(t) => push_line(out, quoted_exec("title", escaped(t.as_str()).as_slice())),
        None => {},
    }
    push_line(out, Vec::new());
    assert(text::views(out@) =~= before + kind_lines(*k));
}

fn head_lines_exec(out: &mut Vec<Vec<char>>, c: &Config)
    ensures
        text::views(final(out)@) == text::views(old(out)@) + head_lines(*c),
{
    let ghost before = text::views(out@);
    push_line(out, chars_of("grund_config_version = 1"));
    match &c.project_name {
        Some(n) => push_line(out, quoted_exec("project_name", escaped(n.as_str()).as_slice())),
        None => {},
    }
    push_line(out, Vec::new());
    push_line(out, chars_of("[reference]"));
    push_line(out, quoted_exec("marker", chars_of(c.marker.as_str()).as_slice()));
    push_line(out, quoted_exec("trigger", chars_of(c.trigger.as_str()).as_slice()));
    push_line(out, plain_exec("strict", bool_chars(c.strict).as_slice()));
    push_line(out, plain_exec("require_grounding", bool_chars(c.require_grounding).as_slice()));
    push_line(out, quoted_exec("inline_style", chars_of(c.inline_style.as_str()).as_slice()));
    push_line(out, plain_exec("inline_note_suggested_lines", text::decimal_chars(c.inline_note_suggested_lines).as_slice()));
    push_line(out, plain_exec("inline_note_max_lines", text::decimal_chars(c.inline_note_max_lines).as_slice()));
    push_line(out, plain_exec("inline_note_max_columns", text::decimal_chars(c.inline_note_max_columns).as_slice()));
    push_line(out, plain_exec("warn_on_suggested", bool_chars(c.warn_on_suggested).as_slice()));
    push_line(out, Vec::new());
    assert(text::views(out@) =~= before + head_lines(*c));
}

fn id_lines_exec(out: &mut Vec<Vec<char>>, c: &Config)
    ensures
        text::views(final(out)@) == text::views(old(out)@) + id_lines(*c),
{
    let ghost before = text::views(out@);
    push_line(out, chars_of("[id]"));
    push_line(out, quoted_exec("format", chars_of(c.id_format.as_str()).as_slice()));
    push_line(out, quoted_exec("section_separator", chars_of(c.section_separator.as_str()).as_slice()));
    push_line(out, quoted_exec("section_heading_levels", chars_of(c.section_heading_levels.as_str()).as_slice()));
    let fv = chars_of(c.id_format.as_str());
    let num = chars_of("{number}");
    let slug = chars_of("{slug}");
    if text::find_seq(fv.as_slice(), num.as_slice(), 0).is_some() {
        push_line(out, quoted_exec("number_pattern", escaped(c.number_pattern.as_str()).as_slice()));
    }
    if text::find_seq(fv.as_slice(), slug.as_slice(), 0).is_some() {
        push_line(out, quoted_exec("slug_pattern", escaped(c.slug_pattern.as_str()).as_slice()));
    }
    push_line(out, Vec::new());
    assert(text::views(out@) =~= before + id_lines(*c));
}

fn tail_lines_exec(out: &mut Vec<Vec<char>>, c: &Config)
    ensures
        text::views(final(out)@) == text::views(old(out)@) + tail_lines(*c),
{
    let ghost before = text::views(out@);
    push_line(out, chars_of("[scan]"));
    let roots: Vec<String> = match &c.scan_roots {
        Some(r) => r.clone(),
        None => Vec::new(),
    };
    assert(model::str_views(roots@) =~= match c.scan_roots {
        Some(r) => model::str_views(r@),
        None => Seq::empty(),
    });
    push_line(out, plain_exec("include", toml_list(&roots).as_slice()));
    push_line(out, plain_exec("exclude", toml_list(&c.exclude).as_slice()));
    push_line(out, plain_exec("extensions", toml_list(&c.extensions).as_slice()));
    push_line(out, plain_exec("comment_prefixes", toml_list(&c.comment_prefixes).as_slice()));
    push_line(out, plain_exec("docstring_python", bool_chars(c.docstring_python).as_slice()));
    push_line(out, plain_exec("respect_gitignore", bool_chars(c.respect_gitignore).as_slice()));
    push_line(out, Vec::new());
    push_line(out, chars_of("[output]"));
    push_line(out, quoted_exec("format", chars_of(c.output_format.as_str()).as_slice()));
    push_line(out, chars_of("color = \"auto\""));
    push_line(out, plain_exec("relative_paths", bool_chars(c.relative_paths).as_slice()));
    push_line(out, Vec::new());
    push_line(out, chars_of("[fmt.cross_refs]"));
    push_line(out, plain_exec("enabled", bool_chars(c.fmt_cross_refs_enabled).as_slice()));
    push_line(out, quoted_exec("anchor_format", chars_of(c.cross_ref_anchor_format.as_str()).as_slice()));
    let ghost mid = text::views(out@);
    if c.workspace_declared {
        push_line(out, Vec::new());
        push_line(out, chars_of("[workspace]"));
        push_line(out, plain_exec("members", toml_list(&c.workspace_members).as_slice()));
        push_line(out, plain_exec("include_root", bool_chars(c.workspace_include_root).as_slice()));
    }
    assert(text::views(out@) =~= before + tail_lines(*c));
}

/// The lines `grund config show` prints for a configuration, as
/// `effective_config_lines` defines them.
pub fn effective_config(c: &Config) -> (r: Vec<String>)
    ensures
        model::str_views(r@) == effective_config_lines(*c),
{
    let mut out: Vec<Vec<char>> = Vec::new();
    head_lines_exec(&mut out, c);
    id_lines_exec(&mut out, c);
    let ghost hi = text::views(out@);
    assert(hi =~= head_lines(*c) + id_lines(*c));
    let mut k: usize = 0;
    while k < c.kinds.len()
        invariant
            k <= c.kinds@.len(),
            text::views(out@) =~= hi + kinds_lines(c.kinds@, k as int),
        decreases c.kinds@.len() - k,
    {
        kind_lines_exec(&mut out, &c.kinds[k]);
        k = k + 1;
    }
    tail_lines_exec(&mut out, c);
    assert(text::views(out@) =~= effective_config_lines(*c));
    let mut r: Vec<String> = Vec::new();
    let mut i: usize = 0;
    while i < out.len()
        invariant
            i <= out@.len(),
            model::str_views(r@) =~= text::views(out@).subrange(0, i as int),
        decreases out@.len() - i,
    {
        let ghost before = r@;
        r.push(string_from_chars(out[i].as_slice()));
        assert(model::str_views(r@) =~= model::str_views(before).push(out@[i as int]@));
        assert(text::views(out@).subrange(0, i + 1) =~= text::views(out@).subrange(0, i as int).push(out@[i as int]@));
        i = i + 1;
    }
    assert(model::str_views(r@) =~= text::views(out@));
    r
}

} // verus!
