//! Workspaces: several projects checked together, each under an alias.
//!
//! A project's alias is its `project_name`, else `root` for the workspace root or
//! the member directory's name; it must match `[a-z][a-z0-9-]*`, and no two
//! projects may share one. Members are listed by path or as `<dir>/*` (every
//! directory under `<dir>`); their roots are kept sorted, each once. A workspace
//! check runs every project's rules and reports all findings in one report order.
use vstd::prelude::*;
use crate::api::{self, Report};
use crate::checker::{self, AgentEntry, StubProbe};
use crate::grammar::{self, Grammar};
use crate::model::{self, CheckReport, Config, Diagnostic, Findings};
use crate::order;
use crate::scanner;
use crate::text::{self, chars_of, string_from_chars};

verus! {

// ---------------------------------------------------------------- aliases

/// Which kind of project an alias is derived for.
#[derive(Clone, Copy, PartialEq, Eq, Structural, Debug)]
pub enum RootMode {
    Root,
    Member,
}

/// `[a-z][a-z0-9-]*`.
pub open spec fn valid_alias(a: Seq<char>) -> bool {
    &&& a.len() > 0
    &&& grammar::is_lower(a[0])
    &&& forall|i: int| 1 <= i < a.len() ==> grammar::is_alias_char(#[trigger] a[i])
}

/// The alias a project asks for before it is checked.
pub open spec fn alias_source(project_name: Option<Seq<char>>, member_root: Option<Seq<char>>, mode: RootMode) -> Seq<char> {
    match project_name {
        Some(n) => n,
        None => match mode {
            RootMode::Root => "root"@,
            RootMode::Member => match member_root {
                Some(p) => scanner::file_name(p),
                None => Seq::empty(),
            },
        },
    }
}

pub open spec fn invalid_alias_message(a: Seq<char>) -> Seq<char> {
    "invalid workspace project alias `"@ + a + "` (expected [a-z][a-z0-9-]*)"@
}

pub fn is_valid_project_alias(a: &[char]) -> (r: bool)
    ensures
        r == valid_alias(a@),
{
    if a.len() == 0 || !(a[0] >= 'a' && a[0] <= 'z') {
        return false;
    }
    let mut i: usize = 1;
    while i < a.len()
        invariant
            1 <= i <= a@.len(),
            forall|k: int| 1 <= k < i ==> grammar::is_alias_char(#[trigger] a@[k]),
        decreases a@.len() - i,
    {
        let c = a[i];
        if !((c >= 'a' && c <= 'z') || (c >= '0' && c <= '9') || c == '-') {
            return false;
        }
        i = i + 1;
    }
    true
}

/// The alias of a project: its `project_name`, else `root` for the workspace root
/// or the member directory's name for a member; an error when that is no valid
/// alias. A member without a `project_name` must come with its root, which has a
/// final component.
pub fn derive_alias(project_name: &Option<String>, member_root: &Option<String>, mode: RootMode) -> (r: Result<String, String>)
    requires
        project_name is None && mode == RootMode::Member ==> member_root is Some && scanner::file_name(
            member_root->0@,
        ).len() > 0,
    ensures
        ({
            let a = alias_source(model::opt_view(*project_name), model::opt_view(*member_root), mode);
            match r {
                Ok(s) => valid_alias(a) && s@ == a,
                Err(m) => !valid_alias(a) && m@ == invalid_alias_message(a),
            }
        }),
{
    let alias: String = match project_name {
        Some(n) => n.clone(),
        None => match mode {
            RootMode::Root => String::from_str("root"),
            RootMode::Member => match member_root {
                Some(p) => {
                    let pv = chars_of(p.as_str());
                    let n = scanner::file_name_of(pv.as_slice());
                    string_from_chars(n.as_slice())
                },
                None => String::new(),
            },
        },
    };
    let av = chars_of(alias.as_str());
    if is_valid_project_alias(av.as_slice()) {
        Ok(alias)
    } else {
        let mut m = String::from_str("invalid workspace project alias `");
        m.append(alias.as_str());
        m.append("` (expected [a-z][a-z0-9-]*)");
        Err(m)
    }
}

/// The first alias that an earlier project already took.
pub open spec fn first_repeat_from(a: Seq<Seq<char>>, j: int) -> Option<Seq<char>>
    decreases a.len() - j,
{
    if j < 0 || j >= a.len() {
        None
    } else if a.subrange(0, j).contains(a[j]) {
        Some(a[j])
    } else {
        first_repeat_from(a, j + 1)
    }
}

pub open spec fn duplicate_alias_message(a: Seq<char>) -> Seq<char> {
    "duplicate workspace project alias `"@ + a + "`"@
}

fn first_repeat(a: &Vec<String>) -> (r: Option<usize>)
    ensures
        match r {
            Some(j) => j < a@.len() && first_repeat_from(model::str_views(a@), 0) == Some(a@[j as int]@),
            None => first_repeat_from(model::str_views(a@), 0) is None,
        },
{
    let ghost av = model::str_views(a@);
    let mut j: usize = 0;
    while j < a.len()
        invariant
            j <= a@.len(),
            av == model::str_views(a@),
            first_repeat_from(av, 0) == first_repeat_from(av, j as int),
        decreases a@.len() - j,
    {
        let mut i: usize = 0;
        let mut seen = false;
        while i < j
            invariant
                i <= j < a@.len(),
                av == model::str_views(a@),
                seen == av.subrange(0, i as int).contains(av[j as int]),
            decreases j - i,
        {
            let ghost before = av.subrange(0, i as int);
            assert(av.subrange(0, i + 1) =~= before.push(av[i as int]));
            assert(av[i as int] == a@[i as int]@ && av[j as int] == a@[j as int]@);
            if a[i].eq(&a[j]) {
                seen = true;
                assert(av.subrange(0, i + 1)[i as int] == av[j as int]);
            }
            proof {
                if before.contains(av[j as int]) {
                    let t = choose|t: int| 0 <= t < before.len() && before[t] == av[j as int];
                    assert(av.subrange(0, i + 1)[t] == av[j as int]);
                }
                let ext = av.subrange(0, i + 1);
                if ext.contains(av[j as int]) && av[i as int] != av[j as int] {
                    let t = choose|t: int| 0 <= t < ext.len() && #[trigger] ext[t] == av[j as int];
                    assert(before[t] == av[j as int]);
                }
            }
            i = i + 1;
        }
        if seen {
            return Some(j);
        }
        j = j + 1;
    }
    None
}

// ---------------------------------------------------------------- members

/// What the walk found for one `members` entry: whether the directory it names
/// (for `<dir>/*`, the parent `<dir>`) exists, and the canonical roots it yields.
pub struct MemberProbe {
    pub member: String,
    pub is_dir: bool,
    pub roots: Vec<String>,
}

pub open spec fn glob_parent(member: Seq<char>) -> Option<Seq<char>> {
    if text::ends_with(member, "/*"@) {
        Some(member.subrange(0, member.len() - 2))
    } else {
        None
    }
}

/// The error of the first member whose directory does not exist, from `k` on.
pub open spec fn member_error_from(root: Seq<char>, ps: Seq<MemberProbe>, k: int) -> Option<Seq<char>>
    decreases ps.len() - k,
{
    if k < 0 || k >= ps.len() {
        None
    } else if !ps[k].is_dir {
        Some(
            match glob_parent(ps[k].member@) {
                Some(parent) => "workspace member glob parent does not exist: "@ + checker::display_path(
                    root,
                    checker::join_path(root, parent),
                ),
                None => "workspace member does not exist: "@ + checker::display_path(
                    root,
                    checker::join_path(root, ps[k].member@),
                ),
            },
        )
    } else {
        member_error_from(root, ps, k + 1)
    }
}

/// Every root the members yield.
pub open spec fn member_roots(ps: Seq<MemberProbe>) -> Set<Seq<char>> {
    Set::new(|r: Seq<char>| exists|k: int, j: int| 0 <= k < ps.len() && 0 <= j < ps[k].roots@.len() && #[trigger] ps[k].roots@[j]@ == r)
}

/// The member roots of a workspace, sorted and each once, or the error of the
/// first member that does not exist.
pub fn expand_workspace_members(root: &str, probes: &Vec<MemberProbe>) -> (r: Result<Vec<String>, String>)
    ensures
        match r {
            Ok(v) => member_error_from(root@, probes@, 0) is None && order::strictly_sorted(model::str_views(v@))
                && model::str_views(v@).to_set() == member_roots(probes@),
            Err(m) => member_error_from(root@, probes@, 0) == Some(m@),
        },
{
    let mut k: usize = 0;
    while k < probes.len()
        invariant
            k <= probes@.len(),
            member_error_from(root@, probes@, 0) == member_error_from(root@, probes@, k as int),
        decreases probes@.len() - k,
    {
        if !probes[k].is_dir {
            let mv = chars_of(probes[k].member.as_str());
            let star = chars_of("/*");
            proof {
                reveal_strlit("/*");
            }
            assert(star@.len() == 2);
            let n = mv.len();
            let is_glob = text::prefix_ends_with(mv.as_slice(), n, star.as_slice());
            assert(mv@.subrange(0, n as int) =~= mv@);
            let mut m = if is_glob {
                String::from_str("workspace member glob parent does not exist: ")
            } else {
                String::from_str("workspace member does not exist: ")
            };
            let target = if is_glob {
                string_from_chars(text::slice_range(mv.as_slice(), 0, n - 2).as_slice())
            } else {
                probes[k].member.clone()
            };
            let joined = checker::join_path_exec(root, target.as_str());
            let shown = checker::display_path_exec(root, joined.as_str());
            m.append(shown.as_str());
            return Err(m);
        }
        k = k + 1;
    }
    let mut out: Vec<Vec<char>> = Vec::new();
    let ghost ps = probes@;
    let mut k: usize = 0;
    while k < probes.len()
        invariant
            k <= probes@.len(),
            ps == probes@,
            order::strictly_sorted(text::views(out@)),
            forall|x: Seq<char>|
                #[trigger] text::views(out@).to_set().contains(x) <==> exists|p: int, j: int|
                    0 <= p < k && 0 <= j < ps[p].roots@.len() && #[trigger] ps[p].roots@[j]@ == x,
        decreases probes@.len() - k,
    {
        let rs = &probes[k].roots;
        let mut j: usize = 0;
        while j < rs.len()
            invariant
                k < probes@.len(),
                j <= rs@.len(),
                ps == probes@,
                rs@ == ps[k as int].roots@,
                order::strictly_sorted(text::views(out@)),
                forall|x: Seq<char>|
                    #[trigger] text::views(out@).to_set().contains(x) <==> (exists|p: int, i: int|
                        0 <= p < k && 0 <= i < ps[p].roots@.len() && #[trigger] ps[p].roots@[i]@ == x) || (exists|i: int|
                        0 <= i < j && #[trigger] rs@[i]@ == x),
            decreases rs@.len() - j,
        {
            let ghost before = text::views(out@).to_set();
            let c = chars_of(rs[j].as_str());
            order::insert_sorted(&mut out, c);
            assert forall|x: Seq<char>|
                #[trigger] text::views(out@).to_set().contains(x) <==> (exists|p: int, i: int|
                    0 <= p < k && 0 <= i < ps[p].roots@.len() && #[trigger] ps[p].roots@[i]@ == x) || (exists|i: int|
                    0 <= i < j + 1 && #[trigger] rs@[i]@ == x) by {
                if x == rs@[j as int]@ {
                } else if exists|i: int| 0 <= i < j + 1 && #[trigger] rs@[i]@ == x {
                    let i = choose|i: int| 0 <= i < j + 1 && #[trigger] rs@[i]@ == x;
                    assert(i < j);
                }
                assert(before.contains(x) <==> (exists|p: int, i: int|
                    0 <= p < k && 0 <= i < ps[p].roots@.len() && #[trigger] ps[p].roots@[i]@ == x) || (exists|i: int|
                    0 <= i < j && #[trigger] rs@[i]@ == x));
            }
            j = j + 1;
        }
        assert forall|x: Seq<char>|
            #[trigger] text::views(out@).to_set().contains(x) <==> exists|p: int, i: int|
                0 <= p < k + 1 && 0 <= i < ps[p].roots@.len() && #[trigger] ps[p].roots@[i]@ == x by {
            if exists|p: int, i: int| 0 <= p < k + 1 && 0 <= i < ps[p].roots@.len() && #[trigger] ps[p].roots@[i]@ == x {
                let (p, i) = choose|p: int, i: int| 0 <= p < k + 1 && 0 <= i < ps[p].roots@.len() && #[trigger] ps[p].roots@[i]@ == x;
                if p == k {
                    assert(rs@[i]@ == x);
                }
            }
            if exists|i: int| 0 <= i < rs@.len() && #[trigger] rs@[i]@ == x {
                let i = choose|i: int| 0 <= i < rs@.len() && #[trigger] rs@[i]@ == x;
                assert(ps[k as int].roots@[i]@ == x);
            }
        }
        k = k + 1;
    }
    let mut r: Vec<String> = Vec::new();
    let mut i: usize = 0;
    while i < out.len()
        invariant
            i <= out@.len(),
            model::str_views(r@) =~= text::views(out@).subrange(0, i as int),
        decreases out@.len() - i,
    {
        let ghost before = r@;
        r.push(string_from_chars(out[i].as_slice()));
        assert(model::str_views(r@) =~= model::str_views(before).push(out@[i as int]@));
        assert(text::views(out@).subrange(0, i + 1) =~= text::views(out@).subrange(0, i as int).push(out@[i as int]@));
        i = i + 1;
    }
    assert(model::str_views(r@) =~= text::views(out@));
    assert(model::str_views(r@).to_set() =~= member_roots(probes@));
    Ok(r)
}

// ---------------------------------------------------------------- checking a workspace

/// One project of a workspace, with what its scan found; `member` is false for the
/// workspace root itself.
pub struct WorkspaceProject {
    pub alias: String,
    pub member: bool,
    pub config: Config,
    pub grammar: Grammar,
    pub findings: Findings,
    pub scan_errors: Vec<(String, String)>,
    pub probes: Vec<StubProbe>,
    pub agents: Vec<AgentEntry>,
}

/// A project's errors and warnings within a workspace check: its rule errors in
/// report order and then an io error per unreadable file; its warnings, and the
/// empty-scan warning when it read nothing and found nothing.
pub open spec fn project_diags(p: WorkspaceProject) -> (Seq<model::DiagnosticV>, Seq<model::DiagnosticV>) {
    let e = checker::sort_diags(checker::check_errors(p.config, p.grammar@, p.findings, p.probes@, p.agents@));
    let w = checker::sort_diags(checker::check_warnings(p.config, p.grammar@, p.findings));
    let quiet = p.findings.scanned_files@.len() == 0 && p.scan_errors@.len() == 0 && e.len() == 0 && w.len() == 0;
    (e + api::io_errors(api::pair_views(p.scan_errors@)), if quiet {
        w.push(api::empty_scan_warning())
    } else {
        w
    })
}

/// The findings of the first `k` projects, project by project.
pub open spec fn workspace_upto(ps: Seq<WorkspaceProject>, k: int) -> (Seq<model::DiagnosticV>, Seq<model::DiagnosticV>)
    decreases k,
{
    if k <= 0 || k > ps.len() {
        (Seq::empty(), Seq::empty())
    } else {
        let prev = workspace_upto(ps, k - 1);
        let cur = project_diags(ps[k - 1]);
        (prev.0 + cur.0, prev.1 + cur.1)
    }
}

/// A workspace's errors and warnings, each in report order.
pub open spec fn workspace_diags(ps: Seq<WorkspaceProject>) -> (Seq<model::DiagnosticV>, Seq<model::DiagnosticV>) {
    let all = workspace_upto(ps, ps.len() as int);
    (checker::sort_diags(all.0), checker::sort_diags(all.1))
}

pub open spec fn aliases(ps: Seq<WorkspaceProject>) -> Seq<Seq<char>> {
    Seq::new(ps.len(), |k: int| ps[k].alias@)
}

pub open spec fn any_scan_errors(ps: Seq<WorkspaceProject>) -> bool {
    exists|k: int| 0 <= k < ps.len() && #[trigger] ps[k].scan_errors@.len() > 0
}

fn project_report(p: &WorkspaceProject) -> (r: CheckReport)
    requires
        p.grammar.wf(),
    ensures
        model::diag_views(r.errors@) == project_diags(*p).0,
        model::diag_views(r.warnings@) == project_diags(*p).1,
{
    let base = checker::check_findings(&p.findings, &p.config, &p.grammar, &p.probes, &p.agents);
    let mut errors = base.errors;
    let mut warnings = base.warnings;
    let quiet = p.findings.scanned_files.len() == 0 && p.scan_errors.len() == 0 && errors.len() == 0 && warnings.len() == 0;
    assert(model::diag_views(errors@).len() == errors@.len());
    assert(model::diag_views(warnings@).len() == warnings@.len());
    let ghost e0 = model::diag_views(errors@);
    let ghost ev = api::pair_views(p.scan_errors@);
    let mut i: usize = 0;
    while i < p.scan_errors.len()
        invariant
            i <= p.scan_errors@.len(),
            ev == api::pair_views(p.scan_errors@),
            model::diag_views(errors@) =~= e0 + api::io_errors(ev).subrange(0, i as int),
        decreases p.scan_errors@.len() - i,
    {
        let ghost before = errors@;
        let d = Diagnostic {
            code: String::from_str("io"),
            path: Some(p.scan_errors[i].0.clone()),
            line: None,
            message: p.scan_errors[i].1.clone(),
            sites: Vec::new(),
        };
        assert(model::site_views(d.sites@) =~= checker::no_sites());
        errors.push(d);
        assert(model::diag_views(errors@) =~= model::diag_views(before).push(api::io_errors(ev)[i as int]));
        i = i + 1;
    }
    assert(api::io_errors(ev).subrange(0, ev.len() as int) =~= api::io_errors(ev));
    assert(model::str_views(p.findings.scanned_files@).len() == p.findings.scanned_files@.len());
    if quiet {
        let ghost before = warnings@;
        let d = Diagnostic {
            code: String::from_str("empty-scan"),
            path: None,
            line: None,
            message: String::from_str("nothing was scanned: no scannable files under the scanned paths"),
            sites: Vec::new(),
        };
        assert(model::site_views(d.sites@) =~= checker::no_sites());
        warnings.push(d);
        assert(model::diag_views(warnings@) =~= model::diag_views(before).push(api::empty_scan_warning()));
    }
    CheckReport { errors, warnings }
}

/// The first member (from `i` on) that declares a `[workspace]` of its own.
pub open spec fn first_nested_from(ps: Seq<WorkspaceProject>, i: int) -> Option<int>
    decreases ps.len() - i,
{
    if i < 0 || i >= ps.len() {
        None
    } else if ps[i].member && ps[i].config.workspace_declared {
        Some(i)
    } else {
        first_nested_from(ps, i + 1)
    }
}

pub open spec fn nested_workspace_message(root: Seq<char>, member_root: Seq<char>) -> Seq<char> {
    "workspace member `"@ + checker::display_path(root, member_root)
        + "` declares its own `[workspace]` block (nested workspaces are not supported)"@
}

/// Checks the projects of a workspace as one: an error for the first member that
/// declares a workspace of its own (nested workspaces are refused), then when two
/// projects share an alias; else one report of every project's findings, paths
/// shown relative to the workspace root, and whether some file could not be read.
pub fn check_workspace(root: &Config, projects: &Vec<WorkspaceProject>) -> (r: Result<(Report, bool), String>)
    requires
        forall|k: int| 0 <= k < projects@.len() ==> (#[trigger] projects@[k]).grammar.wf(),
    ensures
        match r {
            Ok((rep, had)) => {
                let (e, w) = workspace_diags(projects@);
                &&& first_nested_from(projects@, 0) is None
                &&& first_repeat_from(aliases(projects@), 0) is None
                &&& api::finding_views(rep.errors@) == api::public_findings(root.root@, "error"@, e)
                &&& api::finding_views(rep.warnings@) == api::public_findings(root.root@, "warning"@, w)
                &&& had == any_scan_errors(projects@)
            },
            Err(m) => match first_nested_from(projects@, 0) {
                Some(i) => m@ == nested_workspace_message(root.root@, projects@[i].config.root@),
                None => match first_repeat_from(aliases(projects@), 0) {
                    Some(a) => m@ == duplicate_alias_message(a),
                    None => false,
                },
            },
        },
{
    let mut n: usize = 0;
    while n < projects.len()
        invariant
            n <= projects@.len(),
            first_nested_from(projects@, 0) == first_nested_from(projects@, n as int),
        decreases projects@.len() - n,
    {
        if projects[n].member && projects[n].config.workspace_declared {
            let mut m = String::from_str("workspace member `");
            m.append(checker::display_path_exec(root.root.as_str(), projects[n].config.root.as_str()).as_str());
            m.append("` declares its own `[workspace]` block (nested workspaces are not supported)");
            return Err(m);
        }
        n = n + 1;
    }
    let mut names: Vec<String> = Vec::new();
    let mut k: usize = 0;
    while k < projects.len()
        invariant
            k <= projects@.len(),
            model::str_views(names@) =~= aliases(projects@).subrange(0, k as int),
        decreases projects@.len() - k,
    {
        let ghost before = names@;
        names.push(projects[k].alias.clone());
        assert(model::str_views(names@) =~= model::str_views(before).push(projects@[k as int].alias@));
        k = k + 1;
    }
    assert(model::str_views(names@) =~= aliases(projects@));
    match first_repeat(&names) {
        Some(j) => {
            let mut m = String::from_str("duplicate workspace project alias `");
            m.append(names[j].as_str());
            m.append("`");
            return Err(m);
        },
        None => {},
    }
    let ghost ps = projects@;
    let mut errors: Vec<Diagnostic> = Vec::new();
    let mut warnings: Vec<Diagnostic> = Vec::new();
    let mut had = false;
    let mut k: usize = 0;
    while k < projects.len()
        invariant
            k <= projects@.len(),
            ps == projects@,
            forall|q: int| 0 <= q < projects@.len() ==> (#[trigger] projects@[q]).grammar.wf(),
            (model::diag_views(errors@), model::diag_views(warnings@)) == workspace_upto(ps, k as int),
            had == exists|q: int| 0 <= q < k && #[trigger] ps[q].scan_errors@.len() > 0,
        decreases projects@.len() - k,
    {
        let p = &projects[k];
        let mut rep = project_report(p);
        let ghost e0 = model::diag_views(errors@);
        let ghost w0 = model::diag_views(warnings@);
        let ghost re = model::diag_views(rep.errors@);
        let ghost rw = model::diag_views(rep.warnings@);
        errors.append(&mut rep.errors);
        warnings.append(&mut rep.warnings);
        assert(model::diag_views(errors@) =~= e0 + re);
        assert(model::diag_views(warnings@) =~= w0 + rw);
        if p.scan_errors.len() > 0 {
            had = true;
        }
        assert(had == exists|q: int| 0 <= q < k + 1 && #[trigger] ps[q].scan_errors@.len() > 0) by {
            if ps[k as int].scan_errors@.len() > 0 {
                assert(0 <= k < k + 1);
            }
        }
        k = k + 1;
    }
    let errors = checker::sort_diagnostics(&errors);
    let warnings = checker::sort_diagnostics(&warnings);
    let rep = api::public_report(root, &CheckReport { errors, warnings });
    Ok((rep, had))
}

} // verus!
