//! The data the scanner produces and the checker consumes: IDs, declarations,
//! citations, and the diagnostics of a check. Each type has a mathematical view.
use vstd::prelude::*;

verus! {

pub open spec fn opt_view(o: Option<String>) -> Option<Seq<char>> {
    match o {
        Some(s) => Some(s@),
        None => None,
    }
}

pub open spec fn str_views(v: Seq<String>) -> Seq<Seq<char>> {
    Seq::new(v.len(), |i: int| v[i]@)
}

/// A declared or cited identifier: `KIND[-NUM][-slug]`.
pub struct Id {
    pub kind: String,
    pub num: Option<u32>,
    pub slug: Option<String>,
}

pub ghost struct IdV {
    pub kind: Seq<char>,
    pub num: Option<u32>,
    pub slug: Option<Seq<char>>,
}

impl View for Id {
    type V = IdV;

    open spec fn view(&self) -> IdV {
        IdV { kind: self.kind@, num: self.num, slug: opt_view(self.slug) }
    }
}

pub fn string_eq(a: &String, b: &String) -> (r: bool)
    ensures
        r == (a@ == b@),
{
    a.eq(b)
}

pub fn opt_string_eq(a: &Option<String>, b: &Option<String>) -> (r: bool)
    ensures
        r == (opt_view(*a) == opt_view(*b)),
{
    match (a, b) {
        (Some(x), Some(y)) => x.eq(y),
        (None, None) => true,
        _ => false,
    }
}

pub fn copy_string(s: &String) -> (r: String)
    ensures
        r@ == s@,
{
    s.clone()
}

pub fn copy_opt_string(s: &Option<String>) -> (r: Option<String>)
    ensures
        opt_view(r) == opt_view(*s),
{
    match s {
        Some(x) => Some(x.clone()),
        None => None,
    }
}

/// What an ID is known by: its kind and number where it has a number (a slug
/// beside a number only describes it, and may be renamed without breaking a
/// citation), else its kind and slug.
pub open spec fn id_key(i: IdV) -> IdV {
    match i.num {
        Some(_) => IdV { kind: i.kind, num: i.num, slug: None },
        None => i,
    }
}

impl Id {
    /// Two IDs name the same thing when their keys agree: kind and number, or,
    /// without a number, kind and slug.
    pub fn same(&self, other: &Id) -> (r: bool)
        ensures
            r == (id_key(self@) == id_key(other@)),
    {
        string_eq(&self.kind, &other.kind) && self.num == other.num && (self.num.is_some() || opt_string_eq(
            &self.slug,
            &other.slug,
        ))
    }

    pub fn copy(&self) -> (r: Id)
        ensures
            r@ == self@,
    {
        Id { kind: copy_string(&self.kind), num: self.num, slug: copy_opt_string(&self.slug) }
    }
}

/// One numbered section heading inside a declaration.
pub struct SectionInfo {
    pub title: String,
    pub line: usize,
    pub heading_level: usize,
}

/// An `e2e/cases/<name>/` directory registered as an `E2E-<name>` declaration.
pub struct E2eCase {
    pub dir: String,
    pub args: Vec<String>,
    pub expected_exit: i32,
    pub fixtures: Vec<String>,
}

pub ghost struct E2eCaseV {
    pub dir: Seq<char>,
    pub args: Seq<Seq<char>>,
    pub expected_exit: i32,
    pub fixtures: Seq<Seq<char>>,
}

impl View for E2eCase {
    type V = E2eCaseV;

    open spec fn view(&self) -> E2eCaseV {
        E2eCaseV {
            dir: self.dir@,
            args: str_views(self.args@),
            expected_exit: self.expected_exit,
            fixtures: str_views(self.fixtures@),
        }
    }
}

/// A `# <ID>: …` heading: where an ID is defined.
pub struct Declaration {
    pub id: Id,
    pub file: String,
    pub line: usize,
    pub heading_level: usize,
    /// Section path (`"2.1"`) to its heading; keys are unique.
    pub sections: Vec<(String, SectionInfo)>,
    pub is_stub: bool,
    pub defined_in: Option<String>,
    pub e2e_case: Option<E2eCase>,
    pub title: Option<String>,
}

pub ghost struct DeclarationV {
    pub id: IdV,
    pub file: Seq<char>,
    pub line: usize,
    pub heading_level: usize,
    pub sections: Seq<(Seq<char>, Seq<char>, usize, usize)>,
    pub is_stub: bool,
    pub defined_in: Option<Seq<char>>,
    pub e2e: Option<E2eCaseV>,
    pub title: Option<Seq<char>>,
}

/// Each section as (path, anchor title, line, heading depth).
pub open spec fn section_views(s: Seq<(String, SectionInfo)>) -> Seq<(Seq<char>, Seq<char>, usize, usize)> {
    Seq::new(s.len(), |i: int| (s[i].0@, s[i].1.title@, s[i].1.line, s[i].1.heading_level))
}

impl View for Declaration {
    type V = DeclarationV;

    open spec fn view(&self) -> DeclarationV {
        DeclarationV {
            id: self.id@,
            file: self.file@,
            line: self.line,
            heading_level: self.heading_level,
            sections: section_views(self.sections@),
            is_stub: self.is_stub,
            defined_in: opt_view(self.defined_in),
            e2e: match self.e2e_case {
                Some(c) => Some(c@),
                None => None,
            },
            title: opt_view(self.title),
        }
    }
}

/// The comment block around an inline citation (source files only).
#[derive(Clone, Copy, PartialEq, Eq, Structural, Debug)]
pub struct InlineCitationSite {
    pub first_line: usize,
    pub last_line: usize,
    pub max_columns: usize,
    pub has_note: bool,
}

/// A `§<ID>[.<section>]` (or bare `<ID>`) reference found in a file.
pub struct Citation {
    pub namespace: Option<String>,
    pub id: Id,
    pub section: Option<String>,
    pub file: String,
    pub line: usize,
    /// 1-based byte offset of the citation's first character (its marker) in the line.
    pub column: usize,
    pub has_marker: bool,
    pub text: String,
    pub inline_site: Option<InlineCitationSite>,
}

pub ghost struct CitationV {
    pub namespace: Option<Seq<char>>,
    pub id: IdV,
    pub section: Option<Seq<char>>,
    pub file: Seq<char>,
    pub line: usize,
    pub column: usize,
    pub has_marker: bool,
    pub text: Seq<char>,
}

impl View for Citation {
    type V = CitationV;

    open spec fn view(&self) -> CitationV {
        CitationV {
            namespace: opt_view(self.namespace),
            id: self.id@,
            section: opt_view(self.section),
            file: self.file@,
            line: self.line,
            column: self.column,
            has_marker: self.has_marker,
            text: self.text@,
        }
    }
}

/// Every declaration of one ID.
pub struct DeclGroup {
    pub id: Id,
    pub decls: Vec<Declaration>,
}

/// Everything one scan found.
pub struct Findings {
    pub declarations: Vec<DeclGroup>,
    pub citations: Vec<Citation>,
    pub scanned_files: Vec<String>,
}

pub open spec fn decl_views(v: Seq<Declaration>) -> Seq<DeclarationV> {
    Seq::new(v.len(), |i: int| v[i]@)
}

pub open spec fn citation_views(v: Seq<Citation>) -> Seq<CitationV> {
    Seq::new(v.len(), |i: int| v[i]@)
}

/// One location named by a diagnostic.
pub struct Site {
    pub path: String,
    pub line: usize,
}

/// One check finding before it is rendered.
pub struct Diagnostic {
    pub code: String,
    pub path: Option<String>,
    pub line: Option<usize>,
    pub message: String,
    pub sites: Vec<Site>,
}

pub ghost struct DiagnosticV {
    pub code: Seq<char>,
    pub path: Option<Seq<char>>,
    pub line: Option<usize>,
    pub message: Seq<char>,
    pub sites: Seq<(Seq<char>, usize)>,
}

pub open spec fn site_views(v: Seq<Site>) -> Seq<(Seq<char>, usize)> {
    Seq::new(v.len(), |i: int| (v[i].path@, v[i].line))
}

impl View for Diagnostic {
    type V = DiagnosticV;

    open spec fn view(&self) -> DiagnosticV {
        DiagnosticV {
            code: self.code@,
            path: opt_view(self.path),
            line: self.line,
            message: self.message@,
            sites: site_views(self.sites@),
        }
    }
}

pub open spec fn diag_views(v: Seq<Diagnostic>) -> Seq<DiagnosticV> {
    Seq::new(v.len(), |i: int| v[i]@)
}

/// The errors and warnings of one check.
pub struct CheckReport {
    pub errors: Vec<Diagnostic>,
    pub warnings: Vec<Diagnostic>,
}

/// One configured ID kind (`[[kinds]]`).
pub struct KindConfig {
    pub prefix: String,
    pub folder: Option<String>,
    pub file: Option<String>,
    pub title: Option<String>,
}

/// The effective `.agents/grund.toml` settings the library logic reads.
pub struct Config {
    pub root: String,
    pub project_name: Option<String>,
    pub marker: String,
    pub trigger: String,
    pub strict: bool,
    pub require_grounding: bool,
    pub id_format: String,
    pub section_separator: String,
    pub slug_pattern: String,
    pub kinds: Vec<KindConfig>,
    pub extensions: Vec<String>,
    pub comment_prefixes: Vec<String>,
    pub docstring_python: bool,
    pub cross_ref_anchor_format: String,
    pub scan_roots: Option<Vec<String>>,
    pub exclude: Vec<String>,
    pub output_format: String,
    pub inline_style: String,
    pub inline_note_suggested_lines: usize,
    pub inline_note_max_lines: usize,
    pub inline_note_max_columns: usize,
    pub warn_on_suggested: bool,
    pub section_heading_levels: String,
    pub number_pattern: String,
    pub respect_gitignore: bool,
    pub relative_paths: bool,
    pub fmt_cross_refs_enabled: bool,
    pub workspace_declared: bool,
    pub workspace_members: Vec<String>,
    pub workspace_include_root: bool,
}

pub open spec fn kind_prefix_views(k: Seq<KindConfig>) -> Seq<Seq<char>> {
    Seq::new(k.len(), |i: int| k[i].prefix@)
}

} // verus!
