//! The embedding surface shared by front ends: scan a tree, check it, and the
//! public shapes of a report.
use vstd::prelude::*;
use crate::checker::{self, AgentEntry, StubProbe};
use crate::grammar::Grammar;
use crate::model::{self, CheckReport, Config, Diagnostic, Findings, Site};
use crate::text;
use crate::tree::{self, CaseDir, SourceFile};

verus! {

/// Options for a programmatic declaration read (`show`).
pub struct ShowOpts {
    pub path: String,
    pub section: Option<String>,
    pub mode: ShowMode,
    pub format: ShowFormat,
}

impl Default for ShowOpts {
    fn default() -> (r: Self)
        ensures
            r.path@ == "."@,
            r.section is None,
            r.mode == ShowMode::Lead,
            r.format == ShowFormat::Text,
    {
        ShowOpts {
            path: String::from_str("."),
            section: None,
            mode: ShowMode::Lead,
            format: ShowFormat::Text,
        }
    }
}

/// How much of a declaration `show` prints.
#[derive(Clone, Copy, PartialEq, Eq, Structural, Debug)]
pub enum ShowMode {
    Brief,
    Lead,
    Toc,
    Full,
}

/// The body slice a show renders.
#[derive(Clone, Copy, PartialEq, Eq, Structural, Debug)]
pub enum ShowRenderMode {
    Brief,
    Default,
    Toc,
    Full,
}

impl ShowMode {
    pub fn render_mode(self) -> (r: ShowRenderMode)
        ensures
            r == match self {
                ShowMode::Brief => ShowRenderMode::Brief,
                ShowMode::Lead => ShowRenderMode::Default,
                ShowMode::Toc => ShowRenderMode::Toc,
                ShowMode::Full => ShowRenderMode::Full,
            },
    {
        match self {
            ShowMode::Brief => ShowRenderMode::Brief,
            ShowMode::Lead => ShowRenderMode::Default,
            ShowMode::Toc => ShowRenderMode::Toc,
            ShowMode::Full => ShowRenderMode::Full,
        }
    }
}

/// The output format of `show`.
#[derive(Clone, Copy, PartialEq, Eq, Structural, Debug)]
pub enum ShowFormat {
    Text,
    Markdown,
    Json,
}

/// One location a finding names, with its path relative to the project root.
#[derive(Clone, Debug, PartialEq, Eq)]
pub struct FindingSite {
    pub path: String,
    pub line: usize,
}

/// One finding of a check, as the public report carries it.
#[derive(Clone, Debug, PartialEq, Eq)]
pub struct Finding {
    pub severity: String,
    pub code: String,
    pub path: Option<String>,
    pub line: Option<usize>,
    pub message: String,
    pub sites: Vec<FindingSite>,
}

/// The errors and warnings of a check, in report order.
#[derive(Clone, Debug, PartialEq, Eq)]
pub struct Report {
    pub errors: Vec<Finding>,
    pub warnings: Vec<Finding>,
}

impl Default for Report {
    fn default() -> (r: Self)
        ensures
            r.errors@.len() == 0,
            r.warnings@.len() == 0,
    {
        Report { errors: Vec::new(), warnings: Vec::new() }
    }
}

pub ghost struct FindingV {
    pub severity: Seq<char>,
    pub code: Seq<char>,
    pub path: Option<Seq<char>>,
    pub line: Option<usize>,
    pub message: Seq<char>,
    pub sites: Seq<(Seq<char>, usize)>,
}

impl View for Finding {
    type V = FindingV;

    open spec fn view(&self) -> FindingV {
        FindingV {
            severity: self.severity@,
            code: self.code@,
            path: model::opt_view(self.path),
            line: self.line,
            message: self.message@,
            sites: Seq::new(self.sites@.len(), |i: int| (self.sites@[i].path@, self.sites@[i].line)),
        }
    }
}

pub open spec fn finding_views(v: Seq<Finding>) -> Seq<FindingV> {
    Seq::new(v.len(), |i: int| v[i]@)
}

/// A diagnostic as a public finding: paths shown relative to `root`.
pub open spec fn public_finding(root: Seq<char>, severity: Seq<char>, d: model::DiagnosticV) -> FindingV {
    FindingV {
        severity,
        code: d.code,
        path: match d.path {
            Some(p) => Some(checker::display_path(root, p)),
            None => None,
        },
        line: d.line,
        message: d.message,
        sites: Seq::new(d.sites.len(), |i: int| (checker::display_path(root, d.sites[i].0), d.sites[i].1)),
    }
}

pub open spec fn public_findings(root: Seq<char>, severity: Seq<char>, ds: Seq<model::DiagnosticV>) -> Seq<FindingV> {
    Seq::new(ds.len(), |i: int| public_finding(root, severity, ds[i]))
}

fn public_finding_exec(root: &str, severity: &str, d: &Diagnostic) -> (r: Finding)
    ensures
        r@ == public_finding(root@, severity@, d@),
{
    let path = match &d.path {
        Some(p) => Some(checker::display_path_exec(root, p.as_str())),
        None => None,
    };
    let ghost sv = model::site_views(d.sites@);
    let mut sites: Vec<FindingSite> = Vec::new();
    let mut i: usize = 0;
    while i < d.sites.len()
        invariant
            i <= d.sites@.len(),
            sv == model::site_views(d.sites@),
            sites@.len() == i,
            forall|m: int|
                0 <= m < i ==> #[trigger] sites@[m].path@ == checker::display_path(root@, sv[m].0)
                    && sites@[m].line == sv[m].1,
        decreases d.sites@.len() - i,
    {
        let p = checker::display_path_exec(root, d.sites[i].path.as_str());
        sites.push(FindingSite { path: p, line: d.sites[i].line });
        i = i + 1;
    }
    let r = Finding {
        severity: String::from_str(severity),
        code: d.code.clone(),
        path,
        line: d.line,
        message: d.message.clone(),
        sites,
    };
    assert(r@.sites =~= public_finding(root@, severity@, d@).sites);
    r
}

fn public_findings_exec(root: &str, severity: &str, ds: &Vec<Diagnostic>) -> (r: Vec<Finding>)
    ensures
        finding_views(r@) == public_findings(root@, severity@, model::diag_views(ds@)),
{
    let mut out: Vec<Finding> = Vec::new();
    let mut i: usize = 0;
    while i < ds.len()
        invariant
            i <= ds@.len(),
            finding_views(out@) =~= public_findings(root@, severity@, model::diag_views(ds@)).subrange(0, i as int),
        decreases ds@.len() - i,
    {
        let ghost before = out@;
        out.push(public_finding_exec(root, severity, &ds[i]));
        assert(finding_views(out@) =~= finding_views(before).push(
            public_finding(root@, severity@, ds@[i as int]@),
        ));
        i = i + 1;
    }
    out
}

/// The public form of a check report.
pub fn public_report(config: &Config, report: &CheckReport) -> (r: Report)
    ensures
        finding_views(r.errors@) == public_findings(config.root@, "error"@, model::diag_views(report.errors@)),
        finding_views(r.warnings@) == public_findings(config.root@, "warning"@, model::diag_views(report.warnings@)),
{
    Report {
        errors: public_findings_exec(config.root.as_str(), "error", &report.errors),
        warnings: public_findings_exec(config.root.as_str(), "warning", &report.warnings),
    }
}

/// The message of a strict scan that met an unreadable file.
pub open spec fn scan_error_message(root: Seq<char>, e: (Seq<char>, Seq<char>)) -> Seq<char> {
    checker::display_path(root, e.0) + ": "@ + e.1
}

/// Scans one project tree (the files and case directories the caller read) and
/// returns the findings; any file that could not be read makes the scan fail, with
/// the first such file and its reason.
pub fn scan(config: &Config, g: &Grammar, files: &Vec<SourceFile>, cases: &Vec<CaseDir>) -> (r: Result<Findings, String>)
    requires
        g.wf(),
    ensures
        ({
            let v = tree::scan_tree(*config, g@, files@, cases@);
            match r {
                Ok(f) => v.errors.len() == 0 && tree::findings_view(f) == (v.groups, v.cits, v.files)
                    && forall|k: int|
                    0 <= k < f.citations@.len() ==> tree::site_fits(*config, g@, Seq::empty(), files@, #[trigger] f.citations@[k]),
                Err(m) => v.errors.len() > 0 && m@ == scan_error_message(config.root@, v.errors[0]),
            }
        }),
{
    let (f, errors) = tree::scan_tree_exec(config, g, files, cases);
    if errors.len() > 0 {
        let mut m = checker::display_path_exec(config.root.as_str(), errors[0].0.as_str());
        m.append(": ");
        m.append(errors[0].1.as_str());
        return Err(m);
    }
    Ok(f)
}

/// The warning a check gives when it read no files and found nothing.
pub open spec fn empty_scan_warning() -> model::DiagnosticV {
    model::DiagnosticV {
        code: "empty-scan"@,
        path: None,
        line: None,
        message: "nothing was scanned: no scannable files under the scanned paths"@,
        sites: checker::no_sites(),
    }
}

/// The io errors of files that could not be read, in order.
pub open spec fn io_errors(errs: Seq<(Seq<char>, Seq<char>)>) -> Seq<model::DiagnosticV> {
    Seq::new(
        errs.len(),
        |i: int|
            model::DiagnosticV {
                code: "io"@,
                path: Some(errs[i].0),
                line: None,
                message: errs[i].1,
                sites: checker::no_sites(),
            },
    )
}

/// A check's report once unreadable files are added: the rule errors and the io
/// errors in report order, and the warnings — with the empty-scan warning when
/// nothing was read and nothing found.
pub open spec fn full_report(c: Config, gv: crate::grammar::GrammarV, f: Findings, scan_errors: Seq<(Seq<char>, Seq<char>)>, ps: Seq<StubProbe>, ags: Seq<AgentEntry>) -> (Seq<model::DiagnosticV>, Seq<model::DiagnosticV>) {
    let errors = checker::sort_diags(
        checker::sort_diags(checker::check_errors(c, gv, f, ps, ags)) + io_errors(scan_errors),
    );
    let warnings = checker::sort_diags(checker::check_warnings(c, gv, f));
    if f.scanned_files@.len() == 0 && errors.len() == 0 && warnings.len() == 0 {
        (errors, warnings.push(empty_scan_warning()))
    } else {
        (errors, warnings)
    }
}

pub open spec fn pair_views(v: Seq<(String, String)>) -> Seq<(Seq<char>, Seq<char>)> {
    Seq::new(v.len(), |i: int| (v[i].0@, v[i].1@))
}

/// Checks a scanned project: runs every rule, adds an io error for each file that
/// could not be read, and returns the public report.
pub fn check(config: &Config, g: &Grammar, findings: &Findings, scan_errors: &Vec<(String, String)>, probes: &Vec<StubProbe>, agents: &Vec<AgentEntry>) -> (r: Report)
    requires
        g.wf(),
    ensures
        ({
            let (e, w) = full_report(*config, g@, *findings, pair_views(scan_errors@), probes@, agents@);
            &&& finding_views(r.errors@) == public_findings(config.root@, "error"@, e)
            &&& finding_views(r.warnings@) == public_findings(config.root@, "warning"@, w)
        }),
{
    let report = check_report(config, g, findings, scan_errors, probes, agents);
    public_report(config, &report)
}

/// The report of a check before its paths are made relative.
pub fn check_report(config: &Config, g: &Grammar, findings: &Findings, scan_errors: &Vec<(String, String)>, probes: &Vec<StubProbe>, agents: &Vec<AgentEntry>) -> (r: CheckReport)
    requires
        g.wf(),
    ensures
        ({
            let (e, w) = full_report(*config, g@, *findings, pair_views(scan_errors@), probes@, agents@);
            &&& model::diag_views(r.errors@) == e
            &&& model::diag_views(r.warnings@) == w
        }),
{
    let base = checker::check_findings(findings, config, g, probes, agents);
    let mut errors = base.errors;
    let ghost e0 = model::diag_views(errors@);
    let ghost ev = pair_views(scan_errors@);
    let mut i: usize = 0;
    while i < scan_errors.len()
        invariant
            i <= scan_errors@.len(),
            ev == pair_views(scan_errors@),
            model::diag_views(errors@) =~= e0 + io_errors(ev).subrange(0, i as int),
        decreases scan_errors@.len() - i,
    {
        let ghost before = errors@;
        let d = Diagnostic {
            code: String::from_str("io"),
            path: Some(scan_errors[i].0.clone()),
            line: None,
            message: scan_errors[i].1.clone(),
            sites: Vec::new(),
        };
        assert(model::site_views(d.sites@) =~= checker::no_sites());
        errors.push(d);
        assert(model::diag_views(errors@) =~= model::diag_views(before).push(io_errors(ev)[i as int]));
        i = i + 1;
    }
    assert(io_errors(ev).subrange(0, ev.len() as int) =~= io_errors(ev));
    let errors = checker::sort_diagnostics(&errors);
    let mut warnings = base.warnings;
    assert(model::diag_views(errors@).len() == errors@.len());
    assert(model::diag_views(warnings@).len() == warnings@.len());
    assert(model::str_views(findings.scanned_files@).len() == findings.scanned_files@.len());
    if findings.scanned_files.len() == 0 && errors.len() == 0 && warnings.len() == 0 {
        let ghost before = warnings@;
        let d = Diagnostic {
            code: String::from_str("empty-scan"),
            path: None,
            line: None,
            message: String::from_str("nothing was scanned: no scannable files under the scanned paths"),
            sites: Vec::new(),
        };
        assert(model::site_views(d.sites@) =~= checker::no_sites());
        warnings.push(d);
        assert(model::diag_views(warnings@) =~= model::diag_views(before).push(empty_scan_warning()));
    }
    CheckReport { errors, warnings }
}

/// The exit status of `check`: 2 when a file could not be read, else 1 when there
/// is an error, else 0.
pub open spec fn check_exit_code(had_scan_errors: bool, errors: nat) -> u8 {
    if had_scan_errors {
        2
    } else if errors > 0 {
        1
    } else {
        0
    }
}

pub fn exit_code(had_scan_errors: bool, report: &Report) -> (r: u8)
    ensures
        r == check_exit_code(had_scan_errors, report.errors@.len()),
{
    if had_scan_errors {
        2
    } else if report.errors.len() > 0 {
        1
    } else {
        0
    }
}

} // verus!
