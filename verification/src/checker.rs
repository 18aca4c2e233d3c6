//! The checker: the rules a scan's findings are held to, and the report they give.
//!
//! Rules, in the order they run:
//! - an agent entrypoint whose managed `grund init` block is missing, malformed,
//!   older or newer than this library is an error (`agents-init`);
//! - an ID with more than one home is an error at the first home (`duplicate`); a
//!   stub heading that points at a file which itself declares the ID is not a home;
//! - a citation of an undeclared ID is an error (`dangling`), and one whose section
//!   no declaration of the ID has is an error (`missing-section`);
//! - a stub whose target is missing, or does not declare the ID inline, is an
//!   error (`broken-stub`);
//! - with grounding required, a scanned non-Markdown file that neither cites a
//!   declared ID nor declares one is an error at line 1 (`ungrounded`);
//! - a declared ID nothing cites is a warning (`unused`), except `E2E` cases.
//!
//! Errors and warnings are then put in report order (`order`).
//!
//! A citation names a declaration when their IDs have the same key
//! (`model::id_key`): kind and number for a numbered ID, whose slug may be renamed
//! freely, else kind and slug.
//!
//! Whatever needs the file system is handed in: for each stub target (see
//! `stub_target_paths`) whether it exists and, for a readable file, its text; and
//! the agent entrypoints that exist, with their texts.
use vstd::prelude::*;
use crate::grammar::{self, Grammar};
use crate::model::{self, Config, Declaration, DeclGroup, Diagnostic, Findings, Id, Site};
use crate::order::{self, KeyV, SortKey};
use crate::scanner;
use crate::text::{self, chars_of, string_from_chars};

verus! {

// ---------------------------------------------------------------- paths

/// `rel` resolved against `root`: an absolute `rel` stands alone; otherwise the two
/// are joined with one `/`.
pub open spec fn join_path(root: Seq<char>, rel: Seq<char>) -> Seq<char> {
    if rel.len() > 0 && rel[0] == '/' {
        rel
    } else if root.len() == 0 {
        rel
    } else if root.last() == '/' {
        root + rel
    } else {
        root + seq!['/'] + rel
    }
}

pub fn join_path_exec(root: &str, rel: &str) -> (r: String)
    ensures
        r@ == join_path(root@, rel@),
{
    let rv = chars_of(rel);
    let ro = chars_of(root);
    if rv.len() > 0 && rv[0] == '/' {
        return String::from_str(rel);
    }
    if ro.len() == 0 {
        return String::from_str(rel);
    }
    let mut s = String::from_str(root);
    if ro[ro.len() - 1] != '/' {
        s.append("/");
        proof {
            reveal_strlit("/");
        }
    }
    s.append(rel);
    s
}

/// A path as reports show it: relative to `root` when it lies under it.
pub open spec fn display_path(root: Seq<char>, p: Seq<char>) -> Seq<char> {
    if root.len() > 0 && p == root {
        Seq::empty()
    } else if root.len() > 0 && text::starts_with(p, root + seq!['/']) {
        p.subrange(root.len() + 1int, p.len() as int)
    } else {
        p
    }
}

pub fn display_path_exec(root: &str, p: &str) -> (r: String)
    ensures
        r@ == display_path(root@, p@),
{
    let ro = chars_of(root);
    let pv = chars_of(p);
    if ro.len() == 0 {
        return String::from_str(p);
    }
    if order::chars_equal(ro.as_slice(), pv.as_slice()) {
        return String::new();
    }
    let mut rs = ro.clone();
    rs.push('/');
    assert(rs@ =~= ro@ + seq!['/']);
    if text::matches_at(pv.as_slice(), 0, rs.as_slice()) {
        let rest = text::slice_range(pv.as_slice(), rs.len(), pv.len());
        return string_from_chars(rest.as_slice());
    }
    String::from_str(p)
}

// ---------------------------------------------------------------- homes

/// A stub heading that points at a file which itself declares the same ID (one of
/// `ds`): such a stub is a pointer, not a second home.
pub open spec fn stub_for_inline(root: Seq<char>, d: model::DeclarationV, ds: Seq<model::DeclarationV>) -> bool {
    d.is_stub && match d.defined_in {
        Some(t) => exists|k: int|
            0 <= k < ds.len() && #[trigger] ds[k].file == join_path(root, t) && ds[k].file != d.file,
        None => false,
    }
}

pub fn stub_for_inline_exec(root: &str, d: &Declaration, ds: &Vec<Declaration>) -> (r: bool)
    ensures
        r == stub_for_inline(root@, d@, model::decl_views(ds@)),
{
    if !d.is_stub {
        return false;
    }
    match &d.defined_in {
        None => false,
        Some(t) => {
            let resolved = join_path_exec(root, t.as_str());
            let ghost dv = model::decl_views(ds@);
            let mut k: usize = 0;
            while k < ds.len()
                invariant
                    k <= ds@.len(),
                    dv == model::decl_views(ds@),
                    d.is_stub,
                    d@.defined_in == Some(t@),
                    resolved@ == join_path(root@, t@),
                    forall|m: int|
                        0 <= m < k ==> !(#[trigger] dv[m].file == resolved@ && dv[m].file != d.file@),
                decreases ds@.len() - k,
            {
                if ds[k].file.eq(&resolved) && !ds[k].file.eq(&d.file) {
                    assert(dv[k as int].file == join_path(root@, t@));
                    return true;
                }
                k = k + 1;
            }
            false
        },
    }
}

/// The sites `(file, line)` of the declarations among the first `k` of `ds` that are homes.
pub open spec fn home_sites_upto(root: Seq<char>, ds: Seq<model::DeclarationV>, k: int) -> Seq<(Seq<char>, usize)>
    decreases k,
{
    if k <= 0 || k > ds.len() {
        Seq::empty()
    } else {
        let prev = home_sites_upto(root, ds, k - 1);
        if stub_for_inline(root, ds[k - 1], ds) {
            prev
        } else {
            prev.push((ds[k - 1].file, ds[k - 1].line))
        }
    }
}

pub open spec fn home_sites(root: Seq<char>, ds: Seq<model::DeclarationV>) -> Seq<(Seq<char>, usize)> {
    home_sites_upto(root, ds, ds.len() as int)
}

pub open spec fn site_key(s: (Seq<char>, usize)) -> KeyV {
    KeyV { path: Some(s.0), line: s.1 as int, col: 0, text: Seq::empty() }
}

/// Sites ordered by path, then line.
pub open spec fn sorted_sites(ss: Seq<(Seq<char>, usize)>) -> Seq<(Seq<char>, usize)> {
    order::sort_by_keys(ss, Seq::new(ss.len(), |i: int| site_key(ss[i])))
}

pub open spec fn site_text(root: Seq<char>, s: (Seq<char>, usize)) -> Seq<char> {
    display_path(root, s.0) + seq![':'] + text::decimal(s.1 as nat)
}

/// `path:line` of each site, joined with `, `.
pub open spec fn sites_text(root: Seq<char>, ss: Seq<(Seq<char>, usize)>) -> Seq<char>
    decreases ss.len(),
{
    if ss.len() == 0 {
        Seq::empty()
    } else if ss.len() == 1 {
        site_text(root, ss[0])
    } else {
        sites_text(root, ss.drop_last()) + ", "@ + site_text(root, ss.last())
    }
}

pub open spec fn no_sites() -> Seq<(Seq<char>, usize)> {
    Seq::empty()
}

/// The duplicate-declaration error of one ID, if it has more than one home.
pub open spec fn duplicate_diags(root: Seq<char>, g: grammar::GrammarV, id: model::IdV, ds: Seq<model::DeclarationV>) -> Seq<model::DiagnosticV> {
    let hs = home_sites(root, ds);
    if hs.len() > 1 {
        let ss = sorted_sites(hs);
        seq![
            model::DiagnosticV {
                code: "duplicate"@,
                path: Some(ss[0].0),
                line: Some(ss[0].1),
                message: "duplicate declaration of "@ + grammar::render_id(g, id) + " (also declared at "@
                    + sites_text(root, ss.drop_first()) + ")"@,
                sites: ss,
            },
        ]
    } else {
        Seq::empty()
    }
}

pub fn copy_site(s: &Site) -> (r: Site)
    ensures
        r.path@ == s.path@,
        r.line == s.line,
{
    Site { path: s.path.clone(), line: s.line }
}

/// The home sites of one ID's declarations, in declaration order.
pub fn home_sites_exec(root: &str, ds: &Vec<Declaration>) -> (r: Vec<Site>)
    ensures
        model::site_views(r@) == home_sites(root@, model::decl_views(ds@)),
{
    let ghost dv = model::decl_views(ds@);
    let mut out: Vec<Site> = Vec::new();
    let mut k: usize = 0;
    while k < ds.len()
        invariant
            k <= ds@.len(),
            dv == model::decl_views(ds@),
            model::site_views(out@) == home_sites_upto(root@, dv, k as int),
        decreases ds@.len() - k,
    {
        let stub = stub_for_inline_exec(root, &ds[k], ds);
        let ghost before = out@;
        if !stub {
            out.push(Site { path: ds[k].file.clone(), line: ds[k].line });
            assert(model::site_views(out@) =~= model::site_views(before).push(
                (dv[k as int].file, dv[k as int].line),
            ));
        }
        k = k + 1;
    }
    out
}

/// Sites in report order.
pub fn sort_sites(sites: &Vec<Site>) -> (r: Vec<Site>)
    ensures
        model::site_views(r@) == sorted_sites(model::site_views(sites@)),
{
    let ghost sv = model::site_views(sites@);
    let mut keys: Vec<SortKey> = Vec::new();
    let mut i: usize = 0;
    while i < sites.len()
        invariant
            i <= sites@.len(),
            sv == model::site_views(sites@),
            order::key_views(keys@) =~= Seq::new(i as nat, |m: int| site_key(sv[m])),
        decreases sites@.len() - i,
    {
        let ghost before = keys@;
        keys.push(SortKey { path: Some(chars_of(sites[i].path.as_str())), line: sites[i].line, col: 0, text: Vec::new() });
        assert(order::key_views(keys@) =~= order::key_views(before).push(site_key(sv[i as int])));
        i = i + 1;
    }
    let p = order::sort_order(&keys);
    let ghost ks = order::key_views(keys@);
    let mut out: Vec<Site> = Vec::new();
    let mut j: usize = 0;
    while j < p.len()
        invariant
            j <= p@.len(),
            order::is_order(ks, p@),
            ks.len() == sites@.len(),
            sv == model::site_views(sites@),
            model::site_views(out@) =~= Seq::new(j as nat, |m: int| sv[p@[m] as int]),
        decreases p@.len() - j,
    {
        let ghost before = out@;
        out.push(copy_site(&sites[p[j]]));
        assert(model::site_views(out@) =~= model::site_views(before).push(sv[p@[j as int] as int]));
        j = j + 1;
    }
    proof {
        order::lemma_sort_by_keys_is(sv, ks, p@);
        assert(ks =~= Seq::new(sv.len(), |m: int| site_key(sv[m])));
    }
    out
}

/// `path:line` of every site, joined with `, `.
pub fn sites_text_exec(root: &str, ss: &Vec<Site>) -> (r: String)
    ensures
        r@ == sites_text(root@, model::site_views(ss@)),
{
    let ghost sv = model::site_views(ss@);
    let mut out = String::new();
    let mut k: usize = 0;
    while k < ss.len()
        invariant
            k <= ss@.len(),
            sv == model::site_views(ss@),
            out@ == sites_text(root@, sv.subrange(0, k as int)),
        decreases ss@.len() - k,
    {
        if k > 0 {
            out.append(", ");
        }
        let d = display_path_exec(root, ss[k].path.as_str());
        out.append(d.as_str());
        out.append(":");
        let n = text::decimal_string(ss[k].line);
        out.append(n.as_str());
        proof {
            reveal_strlit(":");
            let pre = sv.subrange(0, k + 1);
            assert(pre.drop_last() =~= sv.subrange(0, k as int));
            assert(pre.last() == sv[k as int]);
            assert(seq![':'] =~= ":"@);
        }
        k = k + 1;
    }
    assert(sv.subrange(0, ss@.len() as int) =~= sv);
    out
}

/// The duplicate-declaration error of one ID, if any.
pub fn duplicate_diags_exec(root: &str, g: &Grammar, id: &Id, ds: &Vec<Declaration>) -> (r: Vec<Diagnostic>)
    requires
        g.wf(),
    ensures
        model::diag_views(r@) == duplicate_diags(root@, g@, id@, model::decl_views(ds@)),
{
    let hs = home_sites_exec(root, ds);
    let mut out: Vec<Diagnostic> = Vec::new();
    if hs.len() > 1 {
        let ss = sort_sites(&hs);
        let ghost sv = model::site_views(ss@);
        let mut rest: Vec<Site> = Vec::new();
        let mut k: usize = 1;
        while k < ss.len()
            invariant
                1 <= k <= ss@.len(),
                sv == model::site_views(ss@),
                model::site_views(rest@) =~= sv.subrange(1, k as int),
            decreases ss@.len() - k,
        {
            let ghost before = rest@;
            rest.push(copy_site(&ss[k]));
            assert(model::site_views(rest@) =~= model::site_views(before).push(sv[k as int]));
            k = k + 1;
        }
        let mut m = String::from_str("duplicate declaration of ");
        let rid = g.render_id(id);
        text::append_chars(&mut m, rid.as_slice());
        m.append(" (also declared at ");
        let st = sites_text_exec(root, &rest);
        m.append(st.as_str());
        m.append(")");
        let first_path = ss[0].path.clone();
        let first_line = ss[0].line;
        proof {
            assert(sv.drop_first() =~= sv.subrange(1, sv.len() as int));
        }
        out.push(
            Diagnostic {
                code: String::from_str("duplicate"),
                path: Some(first_path),
                line: Some(first_line),
                message: m,
                sites: ss,
            },
        );
    }
    proof {
        assert(model::diag_views(out@) =~= duplicate_diags(root@, g@, id@, model::decl_views(ds@)));
    }
    out
}

// ---------------------------------------------------------------- findings

pub open spec fn group_view(gr: DeclGroup) -> (model::IdV, Seq<model::DeclarationV>) {
    (gr.id@, model::decl_views(gr.decls@))
}

pub open spec fn groups_view(gs: Seq<DeclGroup>) -> Seq<(model::IdV, Seq<model::DeclarationV>)> {
    Seq::new(gs.len(), |i: int| group_view(gs[i]))
}

/// The first group at or after `i` whose ID is `id`.
pub open spec fn group_index_from(gs: Seq<(model::IdV, Seq<model::DeclarationV>)>, id: model::IdV, i: int) -> Option<int>
    decreases gs.len() - i,
{
    if i < 0 || i >= gs.len() {
        None
    } else if model::id_key(gs[i].0) == model::id_key(id) {
        Some(i)
    } else {
        group_index_from(gs, id, i + 1)
    }
}

pub open spec fn group_index(gs: Seq<(model::IdV, Seq<model::DeclarationV>)>, id: model::IdV) -> Option<int> {
    group_index_from(gs, id, 0)
}

pub proof fn lemma_group_index_from(gs: Seq<(model::IdV, Seq<model::DeclarationV>)>, id: model::IdV, i: int)
    requires
        0 <= i,
    ensures
        group_index_from(gs, id, i) matches Some(k) ==> i <= k < gs.len() && model::id_key(gs[k].0)
            == model::id_key(id),
        group_index_from(gs, id, i) is None ==> forall|k: int|
            i <= k < gs.len() ==> model::id_key(#[trigger] gs[k].0) != model::id_key(id),
    decreases gs.len() - i,
{
    if i < gs.len() && model::id_key(gs[i].0) != model::id_key(id) {
        lemma_group_index_from(gs, id, i + 1);
    }
}

/// The group of `id`, if it is declared.
pub fn find_group(f: &Findings, id: &Id) -> (r: Option<usize>)
    ensures
        match r {
            Some(k) => group_index(groups_view(f.declarations@), id@) == Some(k as int) && k
                < f.declarations@.len(),
            None => group_index(groups_view(f.declarations@), id@) is None,
        },
{
    let ghost gv = groups_view(f.declarations@);
    let mut k: usize = 0;
    while k < f.declarations.len()
        invariant
            k <= f.declarations@.len(),
            gv == groups_view(f.declarations@),
            group_index(gv, id@) == group_index_from(gv, id@, k as int),
        decreases f.declarations@.len() - k,
    {
        if f.declarations[k].id.same(id) {
            return Some(k);
        }
        k = k + 1;
    }
    None
}

// ---------------------------------------------------------------- citations

/// Some declaration among `ds` has a section at path `sec`.
pub open spec fn has_section(ds: Seq<model::DeclarationV>, sec: Seq<char>) -> bool {
    exists|k: int, m: int|
        0 <= k < ds.len() && 0 <= m < ds[k].sections.len() && #[trigger] ds[k].sections[m].0 == sec
}

/// The error one citation gives: none, `dangling` or `missing-section`.
pub open spec fn citation_diags(g: grammar::GrammarV, sep: Seq<char>, gs: Seq<(model::IdV, Seq<model::DeclarationV>)>, c: model::CitationV) -> Seq<model::DiagnosticV> {
    match group_index(gs, c.id) {
        None => seq![
            model::DiagnosticV {
                code: "dangling"@,
                path: Some(c.file),
                line: Some(c.line),
                message: "unknown reference "@ + grammar::render_id(g, c.id),
                sites: no_sites(),
            },
        ],
        Some(k) => match c.section {
            Some(sec) => if has_section(gs[k].1, sec) {
                Seq::empty()
            } else {
                seq![
                    model::DiagnosticV {
                        code: "missing-section"@,
                        path: Some(c.file),
                        line: Some(c.line),
                        message: "missing section "@ + grammar::render_id(g, c.id) + sep + sec,
                        sites: no_sites(),
                    },
                ]
            },
            None => Seq::empty(),
        },
    }
}

/// A numbered ID is known by its kind and number: a citation that names it with
/// another slug resolves exactly as before, so renaming the slug breaks nothing.
pub proof fn lemma_slug_rename_resolves_alike(
    g: grammar::GrammarV,
    sep: Seq<char>,
    gs: Seq<(model::IdV, Seq<model::DeclarationV>)>,
    c: model::CitationV,
    slug: Option<Seq<char>>,
)
    requires
        c.id.num is Some,
    ensures
        ({
            let renamed = model::CitationV { id: model::IdV { slug: slug, ..c.id }, ..c };
            &&& group_index(gs, renamed.id) == group_index(gs, c.id)
            &&& citation_diags(g, sep, gs, renamed).len() == citation_diags(g, sep, gs, c).len()
            &&& forall|k: int|
                0 <= k < citation_diags(g, sep, gs, c).len() ==> (#[trigger] citation_diags(g, sep, gs, renamed)[k]).code
                    == citation_diags(g, sep, gs, c)[k].code
        }),
{
    let renamed = model::CitationV { id: model::IdV { slug: slug, ..c.id }, ..c };
    assert(model::id_key(renamed.id) == model::id_key(c.id));
    lemma_group_index_keyed(gs, renamed.id, c.id, 0);
}

proof fn lemma_group_index_keyed(gs: Seq<(model::IdV, Seq<model::DeclarationV>)>, a: model::IdV, b: model::IdV, i: int)
    requires
        model::id_key(a) == model::id_key(b),
    ensures
        group_index_from(gs, a, i) == group_index_from(gs, b, i),
    decreases gs.len() - i,
{
    if 0 <= i < gs.len() {
        lemma_group_index_keyed(gs, a, b, i + 1);
    }
}

fn has_section_exec(ds: &Vec<Declaration>, sec: &String) -> (r: bool)
    ensures
        r == has_section(model::decl_views(ds@), sec@),
{
    let ghost dv = model::decl_views(ds@);
    let mut k: usize = 0;
    while k < ds.len()
        invariant
            k <= ds@.len(),
            dv == model::decl_views(ds@),
            forall|a: int, m: int|
                0 <= a < k && 0 <= m < dv[a].sections.len() ==> #[trigger] dv[a].sections[m].0 != sec@,
        decreases ds@.len() - k,
    {
        let secs = &ds[k].sections;
        let mut m: usize = 0;
        while m < secs.len()
            invariant
                k < ds@.len(),
                dv == model::decl_views(ds@),
                secs == &ds@[k as int].sections,
                m <= secs@.len(),
                forall|b: int| 0 <= b < m ==> #[trigger] dv[k as int].sections[b].0 != sec@,
            decreases secs@.len() - m,
        {
            if secs[m].0.eq(sec) {
                assert(dv[k as int].sections[m as int].0 == sec@);
                return true;
            }
            m = m + 1;
        }
        k = k + 1;
    }
    false
}

fn diag(code: &str, path: &String, line: usize, message: String) -> (r: Diagnostic)
    ensures
        r@ == (model::DiagnosticV {
            code: code@,
            path: Some(path@),
            line: Some(line),
            message: message@,
            sites: no_sites(),
        }),
{
    let r = Diagnostic {
        code: String::from_str(code),
        path: Some(path.clone()),
        line: Some(line),
        message,
        sites: Vec::new(),
    };
    assert(model::site_views(r.sites@) =~= no_sites());
    r
}

pub fn citation_diags_exec(g: &Grammar, sep: &String, f: &Findings, c: &model::Citation) -> (r: Vec<Diagnostic>)
    requires
        g.wf(),
    ensures
        model::diag_views(r@) == citation_diags(g@, sep@, groups_view(f.declarations@), c@),
{
    let ghost gv = groups_view(f.declarations@);
    let mut out: Vec<Diagnostic> = Vec::new();
    match find_group(f, &c.id) {
        None => {
            let mut m = String::from_str("unknown reference ");
            let rid = g.render_id(&c.id);
            text::append_chars(&mut m, rid.as_slice());
            out.push(diag("dangling", &c.file, c.line, m));
        },
        Some(k) => match &c.section {
            Some(sec) => {
                assert(gv[k as int].1 == model::decl_views(f.declarations@[k as int].decls@));
                if !has_section_exec(&f.declarations[k].decls, sec) {
                    let mut m = String::from_str("missing section ");
                    let rid = g.render_id(&c.id);
                    text::append_chars(&mut m, rid.as_slice());
                    m.append(sep.as_str());
                    m.append(sec.as_str());
                    out.push(diag("missing-section", &c.file, c.line, m));
                }
            },
            None => {},
        },
    }
    assert(model::diag_views(out@) =~= citation_diags(g@, sep@, gv, c@));
    out
}

// ---------------------------------------------------------------- stubs

/// What the file system says about one stub target: whether the path exists and,
/// when it is a readable file, its text.
pub struct StubProbe {
    pub path: String,
    pub exists: bool,
    pub text: Option<String>,
}

/// The first probe at or after `i` for `path`.
pub open spec fn probe_index_from(ps: Seq<StubProbe>, path: Seq<char>, i: int) -> Option<int>
    decreases ps.len() - i,
{
    if i < 0 || i >= ps.len() {
        None
    } else if ps[i].path@ == path {
        Some(i)
    } else {
        probe_index_from(ps, path, i + 1)
    }
}

/// A line that declares `id` inline (a heading that is not itself a stub).
pub open spec fn inline_home_line(g: grammar::GrammarV, prefixes: Seq<Seq<char>>, md: bool, line: Seq<char>, id: model::IdV) -> bool {
    match grammar::declaration_at(g, line, prefixes, md) {
        Some(m) => model::id_key(m.id) == model::id_key(id) && grammar::stub_link(line.subrange(m.id_end, line.len() as int)) is None,
        None => false,
    }
}

/// Some line of `t` declares `id` inline.
pub open spec fn declares_inline_home(g: grammar::GrammarV, prefixes: Seq<Seq<char>>, md: bool, t: Seq<char>, id: model::IdV) -> bool {
    let ls = text::spec_lines(t);
    exists|k: int| 0 <= k < ls.len() && #[trigger] inline_home_line(g, prefixes, md, ls[k], id)
}

/// Whatever is needed of the configuration by the stub rule.
pub ghost struct StubCtx {
    pub root: Seq<char>,
    pub g: grammar::GrammarV,
    pub exts: Seq<Seq<char>>,
    pub prefixes: Seq<Seq<char>>,
}

pub open spec fn stub_ctx(c: Config, g: grammar::GrammarV) -> StubCtx {
    StubCtx {
        root: c.root@,
        g,
        exts: model::str_views(c.extensions@),
        prefixes: model::str_views(c.comment_prefixes@),
    }
}

/// The error one declaration gives as a stub: its target is missing, or does not
/// declare the ID inline (it is not a readable, scannable file that does).
pub open spec fn stub_diags(c: StubCtx, ps: Seq<StubProbe>, id: model::IdV, d: model::DeclarationV) -> Seq<model::DiagnosticV> {
    if d.is_stub && d.defined_in is Some {
        let t = d.defined_in.unwrap();
        let resolved = join_path(c.root, t);
        let pi = probe_index_from(ps, resolved, 0);
        if !(pi matches Some(k) && ps[k].exists) {
            seq![
                model::DiagnosticV {
                    code: "broken-stub"@,
                    path: Some(d.file),
                    line: Some(d.line),
                    message: "stub link target missing: "@ + t,
                    sites: no_sites(),
                },
            ]
        } else if ps[pi.unwrap()].text matches Some(x) && scanner::spec_is_scannable(resolved, c.exts)
            && declares_inline_home(c.g, c.prefixes, scanner::extension(resolved) == Some(scanner::md_ext()), x@, id) {
            Seq::empty()
        } else {
            seq![
                model::DiagnosticV {
                    code: "broken-stub"@,
                    path: Some(d.file),
                    line: Some(d.line),
                    message: "stub link target lacks "@ + grammar::render_id(c.g, id) + ": "@ + t,
                    sites: no_sites(),
                },
            ]
        }
    } else {
        Seq::empty()
    }
}

fn probe_index_exec(ps: &Vec<StubProbe>, path: &String) -> (r: Option<usize>)
    ensures
        match r {
            Some(k) => probe_index_from(ps@, path@, 0) == Some(k as int) && k < ps@.len(),
            None => probe_index_from(ps@, path@, 0) is None,
        },
{
    let mut k: usize = 0;
    while k < ps.len()
        invariant
            k <= ps@.len(),
            probe_index_from(ps@, path@, 0) == probe_index_from(ps@, path@, k as int),
        decreases ps@.len() - k,
    {
        if ps[k].path.eq(path) {
            return Some(k);
        }
        k = k + 1;
    }
    None
}

/// Whether a file's text declares `id` inline.
pub fn declares_inline_home_exec(g: &Grammar, prefixes: &Vec<Vec<char>>, md: bool, t: &str, id: &Id) -> (r: bool)
    requires
        g.wf(),
    ensures
        r == declares_inline_home(g@, text::views(prefixes@), md, t@, id@),
{
    let tv = chars_of(t);
    let lines = text::split_lines(tv.as_slice());
    let ghost ls = text::spec_lines(t@);
    let ghost pv = text::views(prefixes@);
    let mut k: usize = 0;
    while k < lines.len()
        invariant
            k <= lines@.len(),
            g.wf(),
            text::views(lines@) == ls,
            ls == text::spec_lines(t@),
            pv == text::views(prefixes@),
            forall|m: int| 0 <= m < k ==> !#[trigger] inline_home_line(g@, pv, md, ls[m], id@),
        decreases lines@.len() - k,
    {
        let line = &lines[k];
        assert(ls[k as int] == line@);
        match g.declaration_at(line.as_slice(), prefixes, md) {
            Some(h) => {
                if h.id.same(id) {
                    let tail = text::slice_range(line.as_slice(), h.id_end, line.len());
                    if grammar::stub_link_path(tail.as_slice()).is_none() {
                        assert(inline_home_line(g@, pv, md, ls[k as int], id@));
                        return true;
                    }
                }
            },
            None => {},
        }
        k = k + 1;
    }
    false
}

pub fn stub_diags_exec(root: &str, g: &Grammar, exts: &Vec<String>, prefixes: &Vec<Vec<char>>, ps: &Vec<StubProbe>, id: &Id, d: &Declaration) -> (r: Vec<Diagnostic>)
    requires
        g.wf(),
    ensures
        model::diag_views(r@) == stub_diags(
            StubCtx { root: root@, g: g@, exts: model::str_views(exts@), prefixes: text::views(prefixes@) },
            ps@,
            id@,
            d@,
        ),
{
    let ghost c = StubCtx { root: root@, g: g@, exts: model::str_views(exts@), prefixes: text::views(prefixes@) };
    let mut out: Vec<Diagnostic> = Vec::new();
    if d.is_stub {
        match &d.defined_in {
            Some(t) => {
                let resolved = join_path_exec(root, t.as_str());
                match probe_index_exec(ps, &resolved) {
                    Some(k) if ps[k].exists => {
                        let ok = match &ps[k].text {
                            Some(x) => {
                                let rv = chars_of(resolved.as_str());
                                let md = vec!['m', 'd'];
                                assert(md@ =~= scanner::md_ext());
                                let is_md = scanner::has_extension(rv.as_slice(), md.as_slice());
                                scanner::is_scannable_in(resolved.as_str(), exts)
                                    && declares_inline_home_exec(g, prefixes, is_md, x.as_str(), id)
                            },
                            None => false,
                        };
                        if !ok {
                            let mut m = String::from_str("stub link target lacks ");
                            let rid = g.render_id(id);
                            text::append_chars(&mut m, rid.as_slice());
                            m.append(": ");
                            m.append(t.as_str());
                            out.push(diag("broken-stub", &d.file, d.line, m));
                        }
                    },
                    _ => {
                        let mut m = String::from_str("stub link target missing: ");
                        m.append(t.as_str());
                        out.push(diag("broken-stub", &d.file, d.line, m));
                    },
                }
            },
            None => {},
        }
    }
    assert(model::diag_views(out@) =~= stub_diags(c, ps@, id@, d@));
    out
}

// ---------------------------------------------------------------- unused

/// Some citation cites `id`.
pub open spec fn cited(cits: Seq<model::CitationV>, id: model::IdV) -> bool {
    exists|k: int| 0 <= k < cits.len() && model::id_key(#[trigger] cits[k].id) == model::id_key(id)
}

/// The first declaration at or after `i` that is a home.
pub open spec fn first_home_from(root: Seq<char>, ds: Seq<model::DeclarationV>, i: int) -> Option<int>
    decreases ds.len() - i,
{
    if i < 0 || i >= ds.len() {
        None
    } else if !stub_for_inline(root, ds[i], ds) {
        Some(i)
    } else {
        first_home_from(root, ds, i + 1)
    }
}

/// The declaration that stands for an ID: its first home, else its first declaration.
pub open spec fn report_index(root: Seq<char>, ds: Seq<model::DeclarationV>) -> Option<int> {
    match first_home_from(root, ds, 0) {
        Some(k) => Some(k),
        None => if ds.len() > 0 {
            Some(0)
        } else {
            None
        },
    }
}

/// Where an unused ID is reported: its first home, else its first declaration.
pub open spec fn report_decl(root: Seq<char>, ds: Seq<model::DeclarationV>) -> Option<model::DeclarationV> {
    match report_index(root, ds) {
        Some(k) => Some(ds[k]),
        None => None,
    }
}

/// The index of the declaration that stands for an ID, as `report_index` defines it.
pub fn report_index_exec(root: &str, ds: &Vec<Declaration>) -> (r: Option<usize>)
    ensures
        match r {
            Some(k) => report_index(root@, model::decl_views(ds@)) == Some(k as int) && k < ds@.len(),
            None => report_index(root@, model::decl_views(ds@)) is None,
        },
{
    let ghost dv = model::decl_views(ds@);
    let mut k: usize = 0;
    let mut at: Option<usize> = None;
    while k < ds.len()
        invariant_except_break
            at is None,
            first_home_from(root@, dv, 0) == first_home_from(root@, dv, k as int),
        invariant
            k <= ds@.len(),
            dv == model::decl_views(ds@),
        ensures
            at matches Some(j) ==> first_home_from(root@, dv, 0) == Some(j as int) && j < ds@.len(),
            at is None ==> first_home_from(root@, dv, 0) is None,
        decreases ds@.len() - k,
    {
        if !stub_for_inline_exec(root, &ds[k], ds) {
            at = Some(k);
            break;
        }
        k = k + 1;
    }
    match at {
        Some(k) => Some(k),
        None => if ds.len() > 0 {
            Some(0)
        } else {
            None
        },
    }
}

/// The warning an ID gives when nothing cites it (`E2E` cases are exempt).
pub open spec fn unused_diags(root: Seq<char>, g: grammar::GrammarV, cits: Seq<model::CitationV>, id: model::IdV, ds: Seq<model::DeclarationV>) -> Seq<model::DiagnosticV> {
    if id.kind == "E2E"@ || cited(cits, id) {
        Seq::empty()
    } else {
        match report_decl(root, ds) {
            Some(d) => seq![
                model::DiagnosticV {
                    code: "unused"@,
                    path: Some(d.file),
                    line: Some(d.line),
                    message: "declared but never cited: "@ + grammar::render_id(g, id),
                    sites: no_sites(),
                },
            ],
            None => Seq::empty(),
        }
    }
}

fn cited_exec(f: &Findings, id: &Id) -> (r: bool)
    ensures
        r == cited(model::citation_views(f.citations@), id@),
{
    let ghost cv = model::citation_views(f.citations@);
    let mut k: usize = 0;
    while k < f.citations.len()
        invariant
            k <= f.citations@.len(),
            cv == model::citation_views(f.citations@),
            forall|m: int| 0 <= m < k ==> model::id_key(#[trigger] cv[m].id) != model::id_key(id@),
        decreases f.citations@.len() - k,
    {
        if f.citations[k].id.same(id) {
            assert(model::id_key(cv[k as int].id) == model::id_key(id@));
            return true;
        }
        k = k + 1;
    }
    false
}

pub fn unused_diags_exec(root: &str, g: &Grammar, f: &Findings, id: &Id, ds: &Vec<Declaration>) -> (r: Vec<Diagnostic>)
    requires
        g.wf(),
    ensures
        model::diag_views(r@) == unused_diags(
            root@,
            g@,
            model::citation_views(f.citations@),
            id@,
            model::decl_views(ds@),
        ),
{
    let ghost dv = model::decl_views(ds@);
    let mut out: Vec<Diagnostic> = Vec::new();
    let e2e = String::from_str("E2E");
    if id.kind.eq(&e2e) || cited_exec(f, id) {
        assert(model::diag_views(out@) =~= Seq::empty());
        return out;
    }
    let pick = report_index_exec(root, ds);
    match pick {
        Some(k) => {
            let mut m = String::from_str("declared but never cited: ");
            let rid = g.render_id(id);
            text::append_chars(&mut m, rid.as_slice());
            out.push(diag("unused", &ds[k].file, ds[k].line, m));
        },
        None => {},
    }
    assert(model::diag_views(out@) =~= unused_diags(
        root@,
        g@,
        model::citation_views(f.citations@),
        id@,
        dv,
    ));
    out
}

// ---------------------------------------------------------------- grounding

/// `file` cites a declared ID, or itself declares one (not as a stub or e2e case).
pub open spec fn grounded(gs: Seq<(model::IdV, Seq<model::DeclarationV>)>, cits: Seq<model::CitationV>, file: Seq<char>) -> bool {
    ||| exists|k: int| 0 <= k < cits.len() && #[trigger] cits[k].file == file && group_index(gs, cits[k].id) is Some
    ||| exists|i: int, j: int|
        0 <= i < gs.len() && 0 <= j < gs[i].1.len() && #[trigger] gs[i].1[j].file == file
            && !gs[i].1[j].is_stub && (gs[i].1[j].e2e is None)
}

/// The error a scanned file gives when grounding is required: a non-Markdown file
/// that is not grounded.
pub open spec fn ground_diags(marker: Seq<char>, gs: Seq<(model::IdV, Seq<model::DeclarationV>)>, cits: Seq<model::CitationV>, file: Seq<char>) -> Seq<model::DiagnosticV> {
    if scanner::extension(file) != Some(scanner::md_ext()) && !grounded(gs, cits, file) {
        seq![
            model::DiagnosticV {
                code: "ungrounded"@,
                path: Some(file),
                line: Some(1),
                message: "ungrounded source file: no "@ + marker + " citation to a declared ID"@,
                sites: no_sites(),
            },
        ]
    } else {
        Seq::empty()
    }
}

fn grounded_exec(f: &Findings, file: &String) -> (r: bool)
    ensures
        r == grounded(groups_view(f.declarations@), model::citation_views(f.citations@), file@),
{
    let ghost gv = groups_view(f.declarations@);
    let ghost cv = model::citation_views(f.citations@);
    let mut k: usize = 0;
    while k < f.citations.len()
        invariant
            k <= f.citations@.len(),
            gv == groups_view(f.declarations@),
            cv == model::citation_views(f.citations@),
            forall|m: int| 0 <= m < k ==> !(#[trigger] cv[m].file == file@ && group_index(gv, cv[m].id) is Some),
        decreases f.citations@.len() - k,
    {
        if f.citations[k].file.eq(file) && find_group(f, &f.citations[k].id).is_some() {
            assert(cv[k as int].file == file@ && group_index(gv, cv[k as int].id) is Some);
            return true;
        }
        k = k + 1;
    }
    let mut i: usize = 0;
    while i < f.declarations.len()
        invariant
            i <= f.declarations@.len(),
            gv == groups_view(f.declarations@),
            forall|a: int, b: int|
                0 <= a < i && 0 <= b < gv[a].1.len() ==> !(#[trigger] gv[a].1[b].file == file@
                    && !gv[a].1[b].is_stub && (gv[a].1[b].e2e is None)),
        decreases f.declarations@.len() - i,
    {
        let ds = &f.declarations[i].decls;
        assert(gv[i as int].1 == model::decl_views(ds@));
        let mut j: usize = 0;
        while j < ds.len()
            invariant
                i < f.declarations@.len(),
                gv == groups_view(f.declarations@),
                ds == &f.declarations@[i as int].decls,
                gv[i as int].1 == model::decl_views(ds@),
                j <= ds@.len(),
                forall|b: int|
                    0 <= b < j ==> !(#[trigger] gv[i as int].1[b].file == file@ && !gv[i as int].1[b].is_stub
                        && (gv[i as int].1[b].e2e is None)),
            decreases ds@.len() - j,
        {
            if ds[j].file.eq(file) && !ds[j].is_stub && ds[j].e2e_case.is_none() {
                assert(gv[i as int].1[j as int].file == file@);
                return true;
            }
            j = j + 1;
        }
        i = i + 1;
    }
    false
}

pub fn ground_diags_exec(marker: &String, f: &Findings, file: &String) -> (r: Vec<Diagnostic>)
    ensures
        model::diag_views(r@) == ground_diags(
            marker@,
            groups_view(f.declarations@),
            model::citation_views(f.citations@),
            file@,
        ),
{
    let mut out: Vec<Diagnostic> = Vec::new();
    let fv = chars_of(file.as_str());
    let md = vec!['m', 'd'];
    assert(md@ =~= scanner::md_ext());
    if !scanner::has_extension(fv.as_slice(), md.as_slice()) && !grounded_exec(f, file) {
        let mut m = String::from_str("ungrounded source file: no ");
        m.append(marker.as_str());
        m.append(" citation to a declared ID");
        out.push(diag("ungrounded", file, 1, m));
    }
    assert(model::diag_views(out@) =~= ground_diags(
        marker@,
        groups_view(f.declarations@),
        model::citation_views(f.citations@),
        file@,
    ));
    out
}

// ---------------------------------------------------------------- agent entrypoints

/// An agent entrypoint that exists: its text, or the fact that it could not be
/// read, or a failure to list the entrypoints at all.
pub enum AgentEntry {
    Text { path: String, text: String },
    Unreadable { path: String },
    Failed { path: String, message: String },
}

/// The name an unreadable entrypoint is reported by.
pub open spec fn entry_name(path: Seq<char>) -> Seq<char> {
    let n = scanner::file_name(path);
    if n.len() > 0 {
        n
    } else {
        "agent entrypoint"@
    }
}

/// The error an agent entrypoint gives, if any.
pub open spec fn agent_diags(e: AgentEntry) -> Seq<model::DiagnosticV> {
    match e {
        AgentEntry::Text { path, text } => match crate::agents::block_problem(text@) {
            Some((l, m)) => seq![
                model::DiagnosticV {
                    code: "agents-init"@,
                    path: Some(path@),
                    line: Some(l as usize),
                    message: m,
                    sites: no_sites(),
                },
            ],
            None => Seq::empty(),
        },
        AgentEntry::Unreadable { path } => seq![
            model::DiagnosticV {
                code: "io"@,
                path: Some(path@),
                line: Some(1),
                message: "cannot read "@ + entry_name(path@),
                sites: no_sites(),
            },
        ],
        AgentEntry::Failed { path, message } => seq![
            model::DiagnosticV {
                code: "io"@,
                path: Some(path@),
                line: Some(1),
                message: message@,
                sites: no_sites(),
            },
        ],
    }
}

pub fn agent_diags_exec(e: &AgentEntry) -> (r: Vec<Diagnostic>)
    ensures
        model::diag_views(r@) == agent_diags(*e),
{
    let mut out: Vec<Diagnostic> = Vec::new();
    match e {
        AgentEntry::Text { path, text } => {
            match crate::agents::block_problem_exec(text.as_str()) {
                Some((l, m)) => {
                    out.push(diag("agents-init", path, l, m));
                },
                None => {},
            }
        },
        AgentEntry::Unreadable { path } => {
            let pv = chars_of(path.as_str());
            let n = scanner::file_name_of(pv.as_slice());
            let mut m = String::from_str("cannot read ");
            if n.len() > 0 {
                text::append_chars(&mut m, n.as_slice());
            } else {
                m.append("agent entrypoint");
            }
            out.push(diag("io", path, 1, m));
        },
        AgentEntry::Failed { path, message } => {
            out.push(diag("io", path, 1, message.clone()));
        },
    }
    assert(model::diag_views(out@) =~= agent_diags(*e));
    out
}

// ---------------------------------------------------------------- the whole check

pub open spec fn agents_all(ags: Seq<AgentEntry>, k: int) -> Seq<model::DiagnosticV>
    decreases k,
{
    if k <= 0 || k > ags.len() {
        Seq::empty()
    } else {
        agents_all(ags, k - 1) + agent_diags(ags[k - 1])
    }
}

pub open spec fn dups_all(root: Seq<char>, g: grammar::GrammarV, gs: Seq<(model::IdV, Seq<model::DeclarationV>)>, k: int) -> Seq<model::DiagnosticV>
    decreases k,
{
    if k <= 0 || k > gs.len() {
        Seq::empty()
    } else {
        dups_all(root, g, gs, k - 1) + duplicate_diags(root, g, gs[k - 1].0, gs[k - 1].1)
    }
}

pub open spec fn cites_all(g: grammar::GrammarV, sep: Seq<char>, gs: Seq<(model::IdV, Seq<model::DeclarationV>)>, cits: Seq<model::CitationV>, k: int) -> Seq<model::DiagnosticV>
    decreases k,
{
    if k <= 0 || k > cits.len() {
        Seq::empty()
    } else {
        cites_all(g, sep, gs, cits, k - 1) + citation_diags(g, sep, gs, cits[k - 1])
    }
}

pub open spec fn stubs_of(c: StubCtx, ps: Seq<StubProbe>, id: model::IdV, ds: Seq<model::DeclarationV>, k: int) -> Seq<model::DiagnosticV>
    decreases k,
{
    if k <= 0 || k > ds.len() {
        Seq::empty()
    } else {
        stubs_of(c, ps, id, ds, k - 1) + stub_diags(c, ps, id, ds[k - 1])
    }
}

pub open spec fn stubs_all(c: StubCtx, ps: Seq<StubProbe>, gs: Seq<(model::IdV, Seq<model::DeclarationV>)>, k: int) -> Seq<model::DiagnosticV>
    decreases k,
{
    if k <= 0 || k > gs.len() {
        Seq::empty()
    } else {
        stubs_all(c, ps, gs, k - 1) + stubs_of(c, ps, gs[k - 1].0, gs[k - 1].1, gs[k - 1].1.len() as int)
    }
}

pub open spec fn grounds_all(marker: Seq<char>, gs: Seq<(model::IdV, Seq<model::DeclarationV>)>, cits: Seq<model::CitationV>, files: Seq<Seq<char>>, k: int) -> Seq<model::DiagnosticV>
    decreases k,
{
    if k <= 0 || k > files.len() {
        Seq::empty()
    } else {
        grounds_all(marker, gs, cits, files, k - 1) + ground_diags(marker, gs, cits, files[k - 1])
    }
}

pub open spec fn unused_all(root: Seq<char>, g: grammar::GrammarV, cits: Seq<model::CitationV>, gs: Seq<(model::IdV, Seq<model::DeclarationV>)>, k: int) -> Seq<model::DiagnosticV>
    decreases k,
{
    if k <= 0 || k > gs.len() {
        Seq::empty()
    } else {
        unused_all(root, g, cits, gs, k - 1) + unused_diags(root, g, cits, gs[k - 1].0, gs[k - 1].1)
    }
}

/// Every error of a check, in the order the rules produce them.
pub open spec fn check_errors(c: Config, g: grammar::GrammarV, f: Findings, ps: Seq<StubProbe>, ags: Seq<AgentEntry>) -> Seq<model::DiagnosticV> {
    let gs = groups_view(f.declarations@);
    let cits = model::citation_views(f.citations@);
    let files = model::str_views(f.scanned_files@);
    agents_all(ags, ags.len() as int) + dups_all(c.root@, g, gs, gs.len() as int) + cites_all(
        g,
        c.section_separator@,
        gs,
        cits,
        cits.len() as int,
    ) + stubs_all(stub_ctx(c, g), ps, gs, gs.len() as int) + if c.require_grounding {
        grounds_all(c.marker@, gs, cits, files, files.len() as int)
    } else {
        Seq::empty()
    }
}

/// Every warning of a check, in the order the rules produce them.
pub open spec fn check_warnings(c: Config, g: grammar::GrammarV, f: Findings) -> Seq<model::DiagnosticV> {
    let gs = groups_view(f.declarations@);
    unused_all(c.root@, g, model::citation_views(f.citations@), gs, gs.len() as int)
}

pub open spec fn diag_key(d: model::DiagnosticV) -> KeyV {
    KeyV {
        path: d.path,
        line: match d.line {
            Some(l) => l as int,
            None => 0,
        },
        col: 0,
        text: d.message,
    }
}

/// Diagnostics in report order: by path (none first), line (none as 0), message;
/// ties keep their order.
pub open spec fn sort_diags(s: Seq<model::DiagnosticV>) -> Seq<model::DiagnosticV> {
    order::sort_by_keys(s, diag_keys(s))
}

pub open spec fn diag_keys(s: Seq<model::DiagnosticV>) -> Seq<KeyV> {
    Seq::new(s.len(), |i: int| diag_key(s[i]))
}

/// Report order: a report holds the diagnostics it was given, each once, ordered
/// by path (none first), then line (none as 0), then message, ties kept in the
/// order they came. The order is a function of the diagnostics, so two runs over
/// the same findings print the same report.
pub proof fn lemma_report_order(s: Seq<model::DiagnosticV>)
    requires
        s.len() <= usize::MAX,
    ensures
        sort_diags(s).len() == s.len(),
        exists|p: Seq<usize>|
            #[trigger] order::is_order(diag_keys(s), p) && sort_diags(s) == Seq::new(
                s.len(),
                |i: int| s[p[i] as int],
            ),
        forall|i: int, j: int|
            0 <= i < j < s.len() ==> !order::key_lt(diag_key(#[trigger] sort_diags(s)[j]), diag_key(#[trigger] sort_diags(s)[i])),
{
    let keys = diag_keys(s);
    order::lemma_sort_by_keys_sorted(s, keys);
    let p = choose|p: Seq<usize>| #[trigger] order::is_order(keys, p) && sort_diags(s) == Seq::new(s.len(), |i: int| s[p[i] as int]);
    let r = sort_diags(s);
    assert forall|i: int, j: int| 0 <= i < j < s.len() implies !order::key_lt(diag_key(#[trigger] r[j]), diag_key(#[trigger] r[i])) by {
        assert(order::entry_lt(keys, p[i] as int, p[j] as int));
        assert(r[i] == s[p[i] as int] && r[j] == s[p[j] as int]);
        order::lemma_key_lt_facts(keys[p[i] as int], keys[p[j] as int], keys[p[i] as int]);
    }
}

pub fn copy_diagnostic(d: &Diagnostic) -> (r: Diagnostic)
    ensures
        r@ == d@,
{
    let ghost sv = model::site_views(d.sites@);
    let mut sites: Vec<Site> = Vec::new();
    let mut i: usize = 0;
    while i < d.sites.len()
        invariant
            i <= d.sites@.len(),
            sv == model::site_views(d.sites@),
            model::site_views(sites@) =~= sv.subrange(0, i as int),
        decreases d.sites@.len() - i,
    {
        let ghost before = sites@;
        sites.push(copy_site(&d.sites[i]));
        assert(model::site_views(sites@) =~= model::site_views(before).push(sv[i as int]));
        i = i + 1;
    }
    let r = Diagnostic {
        code: d.code.clone(),
        path: model::copy_opt_string(&d.path),
        line: d.line,
        message: d.message.clone(),
        sites,
    };
    assert(model::site_views(r.sites@) =~= sv);
    r
}

/// Puts diagnostics in report order.
pub fn sort_diagnostics(v: &Vec<Diagnostic>) -> (r: Vec<Diagnostic>)
    ensures
        model::diag_views(r@) == sort_diags(model::diag_views(v@)),
{
    let ghost dv = model::diag_views(v@);
    let mut keys: Vec<SortKey> = Vec::new();
    let mut i: usize = 0;
    while i < v.len()
        invariant
            i <= v@.len(),
            dv == model::diag_views(v@),
            order::key_views(keys@) =~= Seq::new(i as nat, |m: int| diag_key(dv[m])),
        decreases v@.len() - i,
    {
        let ghost before = keys@;
        let path = match &v[i].path {
            Some(p) => Some(chars_of(p.as_str())),
            None => None,
        };
        let line = match v[i].line {
            Some(l) => l,
            None => 0,
        };
        keys.push(SortKey { path, line, col: 0, text: chars_of(v[i].message.as_str()) });
        assert(order::key_views(keys@) =~= order::key_views(before).push(diag_key(dv[i as int])));
        i = i + 1;
    }
    let p = order::sort_order(&keys);
    let ghost ks = order::key_views(keys@);
    let mut out: Vec<Diagnostic> = Vec::new();
    let mut j: usize = 0;
    while j < p.len()
        invariant
            j <= p@.len(),
            order::is_order(ks, p@),
            ks.len() == v@.len(),
            dv == model::diag_views(v@),
            model::diag_views(out@) =~= Seq::new(j as nat, |m: int| dv[p@[m] as int]),
        decreases p@.len() - j,
    {
        let ghost before = out@;
        out.push(copy_diagnostic(&v[p[j]]));
        assert(model::diag_views(out@) =~= model::diag_views(before).push(dv[p@[j as int] as int]));
        j = j + 1;
    }
    proof {
        order::lemma_sort_by_keys_is(dv, ks, p@);
        assert(ks =~= Seq::new(dv.len(), |m: int| diag_key(dv[m])));
    }
    out
}

proof fn lemma_diag_views_append(a: Seq<Diagnostic>, b: Seq<Diagnostic>)
    ensures
        model::diag_views(a + b) == model::diag_views(a) + model::diag_views(b),
{
    assert(model::diag_views(a + b) =~= model::diag_views(a) + model::diag_views(b));
}

/// Appends `more` to `out`.
fn extend_diags(out: &mut Vec<Diagnostic>, more: Vec<Diagnostic>)
    ensures
        model::diag_views(final(out)@) == model::diag_views(old(out)@) + model::diag_views(more@),
{
    let mut more = more;
    let ghost a = out@;
    let ghost b = more@;
    out.append(&mut more);
    proof {
        lemma_diag_views_append(a, b);
    }
}

/// Runs every rule over a scan's findings and returns the errors and warnings in
/// report order.
pub fn check_findings(f: &Findings, config: &Config, g: &Grammar, probes: &Vec<StubProbe>, agents: &Vec<AgentEntry>) -> (r: model::CheckReport)
    requires
        g.wf(),
    ensures
        model::diag_views(r.errors@) == sort_diags(check_errors(*config, g@, *f, probes@, agents@)),
        model::diag_views(r.warnings@) == sort_diags(check_warnings(*config, g@, *f)),
{
    let ghost gs = groups_view(f.declarations@);
    let ghost cits = model::citation_views(f.citations@);
    let ghost files = model::str_views(f.scanned_files@);
    let root = config.root.as_str();
    let mut errors: Vec<Diagnostic> = Vec::new();

    let mut k: usize = 0;
    while k < agents.len()
        invariant
            k <= agents@.len(),
            model::diag_views(errors@) == agents_all(agents@, k as int),
        decreases agents@.len() - k,
    {
        let more = agent_diags_exec(&agents[k]);
        extend_diags(&mut errors, more);
        k = k + 1;
    }
    let ghost part1 = model::diag_views(errors@);

    let mut dups: Vec<Diagnostic> = Vec::new();
    let mut k: usize = 0;
    while k < f.declarations.len()
        invariant
            k <= f.declarations@.len(),
            g.wf(),
            gs == groups_view(f.declarations@),
            root@ == config.root@,
            model::diag_views(dups@) == dups_all(config.root@, g@, gs, k as int),
        decreases f.declarations@.len() - k,
    {
        let more = duplicate_diags_exec(root, g, &f.declarations[k].id, &f.declarations[k].decls);
        extend_diags(&mut dups, more);
        k = k + 1;
    }

    let mut cs: Vec<Diagnostic> = Vec::new();
    let mut k: usize = 0;
    while k < f.citations.len()
        invariant
            k <= f.citations@.len(),
            g.wf(),
            gs == groups_view(f.declarations@),
            cits == model::citation_views(f.citations@),
            model::diag_views(cs@) == cites_all(g@, config.section_separator@, gs, cits, k as int),
        decreases f.citations@.len() - k,
    {
        let more = citation_diags_exec(g, &config.section_separator, f, &f.citations[k]);
        extend_diags(&mut cs, more);
        k = k + 1;
    }

    let prefixes = scanner::chars_list(&config.comment_prefixes);
    let ghost sc = stub_ctx(*config, g@);
    assert(sc == StubCtx { root: root@, g: g@, exts: model::str_views(config.extensions@), prefixes: text::views(prefixes@) });
    let mut stubs: Vec<Diagnostic> = Vec::new();
    let mut k: usize = 0;
    while k < f.declarations.len()
        invariant
            k <= f.declarations@.len(),
            g.wf(),
            gs == groups_view(f.declarations@),
            sc == (StubCtx { root: root@, g: g@, exts: model::str_views(config.extensions@), prefixes: text::views(prefixes@) }),
            model::diag_views(stubs@) == stubs_all(sc, probes@, gs, k as int),
        decreases f.declarations@.len() - k,
    {
        let grp = &f.declarations[k];
        let ghost dv = model::decl_views(grp.decls@);
        let mut one: Vec<Diagnostic> = Vec::new();
        let mut m: usize = 0;
        while m < grp.decls.len()
            invariant
                m <= grp.decls@.len(),
                g.wf(),
                dv == model::decl_views(grp.decls@),
                sc == (StubCtx { root: root@, g: g@, exts: model::str_views(config.extensions@), prefixes: text::views(prefixes@) }),
                model::diag_views(one@) == stubs_of(sc, probes@, grp.id@, dv, m as int),
            decreases grp.decls@.len() - m,
        {
            let more = stub_diags_exec(root, g, &config.extensions, &prefixes, probes, &grp.id, &grp.decls[m]);
            extend_diags(&mut one, more);
            m = m + 1;
        }
        assert(gs[k as int] == (grp.id@, dv));
        extend_diags(&mut stubs, one);
        k = k + 1;
    }

    let mut grounds: Vec<Diagnostic> = Vec::new();
    if config.require_grounding {
        let mut k: usize = 0;
        while k < f.scanned_files.len()
            invariant
                k <= f.scanned_files@.len(),
                gs == groups_view(f.declarations@),
                cits == model::citation_views(f.citations@),
                files == model::str_views(f.scanned_files@),
                model::diag_views(grounds@) == grounds_all(config.marker@, gs, cits, files, k as int),
            decreases f.scanned_files@.len() - k,
        {
            let more = ground_diags_exec(&config.marker, f, &f.scanned_files[k]);
            extend_diags(&mut grounds, more);
            k = k + 1;
        }
    }
    extend_diags(&mut errors, dups);
    extend_diags(&mut errors, cs);
    extend_diags(&mut errors, stubs);
    extend_diags(&mut errors, grounds);
    proof {
        if !config.require_grounding {
            assert(model::diag_views(grounds@) =~= Seq::empty());
        }
    }

    let mut warnings: Vec<Diagnostic> = Vec::new();
    let mut k: usize = 0;
    while k < f.declarations.len()
        invariant
            k <= f.declarations@.len(),
            g.wf(),
            gs == groups_view(f.declarations@),
            cits == model::citation_views(f.citations@),
            root@ == config.root@,
            model::diag_views(warnings@) == unused_all(config.root@, g@, cits, gs, k as int),
        decreases f.declarations@.len() - k,
    {
        let more = unused_diags_exec(root, g, f, &f.declarations[k].id, &f.declarations[k].decls);
        extend_diags(&mut warnings, more);
        k = k + 1;
    }
    model::CheckReport { errors: sort_diagnostics(&errors), warnings: sort_diagnostics(&warnings) }
}

/// The resolved target of every stub declaration, in group and declaration order:
/// the paths whose status the check needs from the file system.
pub open spec fn stub_targets_of(root: Seq<char>, ds: Seq<model::DeclarationV>, k: int) -> Seq<Seq<char>>
    decreases k,
{
    if k <= 0 || k > ds.len() {
        Seq::empty()
    } else {
        let prev = stub_targets_of(root, ds, k - 1);
        let d = ds[k - 1];
        if d.is_stub && d.defined_in is Some {
            prev.push(join_path(root, d.defined_in.unwrap()))
        } else {
            prev
        }
    }
}

pub open spec fn stub_targets_all(root: Seq<char>, gs: Seq<(model::IdV, Seq<model::DeclarationV>)>, k: int) -> Seq<Seq<char>>
    decreases k,
{
    if k <= 0 || k > gs.len() {
        Seq::empty()
    } else {
        stub_targets_all(root, gs, k - 1) + stub_targets_of(root, gs[k - 1].1, gs[k - 1].1.len() as int)
    }
}

pub fn stub_target_paths(f: &Findings, config: &Config) -> (r: Vec<String>)
    ensures
        model::str_views(r@) == stub_targets_all(
            config.root@,
            groups_view(f.declarations@),
            f.declarations@.len() as int,
        ),
{
    let ghost gs = groups_view(f.declarations@);
    let mut out: Vec<String> = Vec::new();
    let mut k: usize = 0;
    while k < f.declarations.len()
        invariant
            k <= f.declarations@.len(),
            gs == groups_view(f.declarations@),
            model::str_views(out@) =~= stub_targets_all(config.root@, gs, k as int),
        decreases f.declarations@.len() - k,
    {
        let ds = &f.declarations[k].decls;
        let ghost dv = model::decl_views(ds@);
        let ghost start = model::str_views(out@);
        let mut m: usize = 0;
        while m < ds.len()
            invariant
                m <= ds@.len(),
                dv == model::decl_views(ds@),
                model::str_views(out@) =~= start + stub_targets_of(config.root@, dv, m as int),
            decreases ds@.len() - m,
        {
            if ds[m].is_stub {
                match &ds[m].defined_in {
                    Some(t) => {
                        let ghost before = out@;
                        out.push(join_path_exec(config.root.as_str(), t.as_str()));
                        assert(model::str_views(out@) =~= model::str_views(before).push(
                            join_path(config.root@, t@),
                        ));
                    },
                    None => {},
                }
            }
            m = m + 1;
        }
        assert(gs[k as int].1 == dv);
        k = k + 1;
    }
    out
}

} // verus!
