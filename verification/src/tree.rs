//! Scanning a whole tree: each readable file's declarations and citations merged
//! into one set of findings (declarations grouped by ID), plus the `E2E-<name>`
//! declarations of the e2e case directories. Reading the files is the caller's
//! part: it hands in each file's path with its text, or the reason it could not be
//! read.
use vstd::prelude::*;
use crate::checker::{self, group_index, groups_view};
use crate::comment_blocks;
use crate::grammar::{self, Grammar};
use crate::model::{self, Citation, Config, Declaration, DeclGroup, E2eCase, Findings, Id};
use crate::order::{self, KeyV, SortKey};
use crate::scanner::{self, WorkspaceTarget};
use crate::text::{self, chars_of, string_from_chars};

verus! {

/// One file of the walk: its path and its text, or why it could not be read.
pub struct SourceFile {
    pub path: String,
    pub content: Result<String, String>,
}

/// One e2e case directory (`e2e/cases/<name>/`): its path and what was read from
/// it, or why it could not be read.
pub struct CaseDir {
    pub dir: String,
    pub case: Result<E2eCase, String>,
}

// ---------------------------------------------------------------- choosing the files to scan

/// `p` relative to `root`: the text after `root` when `p` starts with it.
pub open spec fn below_root(root: Seq<char>, p: Seq<char>) -> Seq<char> {
    if text::starts_with(p, root) {
        p.subrange(root.len() as int, p.len() as int)
    } else {
        p
    }
}

/// The directories of `p` below `root`: everything up to its last `/`.
pub open spec fn dirs_below(root: Seq<char>, p: Seq<char>) -> Seq<char> {
    let rel = below_root(root, p);
    match scanner::last_index_before(rel, '/', rel.len() as int) {
        Some(k) => rel.subrange(0, k + 1),
        None => Seq::empty(),
    }
}

/// Some directory named in `d` is hidden: a component that starts with `.`.
pub open spec fn hidden_dir(d: Seq<char>) -> bool {
    exists|i: int| 0 <= i < d.len() && #[trigger] d[i] == '.' && (i == 0 || d[i - 1] == '/')
}

/// A walked file is scanned: it is scannable, and no directory it lies in below the
/// root is hidden or named in `[scan] exclude`.
pub open spec fn walk_keeps(root: Seq<char>, exclude: Seq<Seq<char>>, exts: Seq<Seq<char>>, p: Seq<char>) -> bool {
    let d = dirs_below(root, p);
    &&& scanner::spec_is_scannable(p, exts)
    &&& !hidden_dir(d)
    &&& forall|k: int| 0 <= k < exclude.len() ==> !scanner::has_component(d, #[trigger] exclude[k])
}

fn dirs_below_exec(root: &[char], p: &[char]) -> (r: Vec<char>)
    ensures
        r@ == dirs_below(root@, p@),
{
    let rel = if text::matches_at(p, 0, root) {
        text::slice_range(p, root.len(), p.len())
    } else {
        text::slice_range(p, 0, p.len())
    };
    assert(p@.subrange(0, p@.len() as int) =~= p@);
    match scanner::last_index_of(rel.as_slice(), '/') {
        Some(k) => text::slice_range(rel.as_slice(), 0, k + 1),
        None => Vec::new(),
    }
}

fn hidden_dir_exec(d: &[char]) -> (r: bool)
    ensures
        r == hidden_dir(d@),
{
    let mut i: usize = 0;
    while i < d.len()
        invariant
            i <= d@.len(),
            forall|m: int| 0 <= m < i ==> !(#[trigger] d@[m] == '.' && (m == 0 || d@[m - 1] == '/')),
        decreases d@.len() - i,
    {
        if d[i] == '.' && (i == 0 || d[i - 1] == '/') {
            assert(d@[i as int] == '.');
            return true;
        }
        i = i + 1;
    }
    false
}

fn walk_keeps_exec(root: &[char], config: &Config, p: &str) -> (r: bool)
    ensures
        r == walk_keeps(root@, model::str_views(config.exclude@), model::str_views(config.extensions@), p@),
{
    let ghost ex = model::str_views(config.exclude@);
    if !scanner::is_scannable(p, config) {
        return false;
    }
    let pv = chars_of(p);
    let d = dirs_below_exec(root, pv.as_slice());
    if hidden_dir_exec(d.as_slice()) {
        return false;
    }
    let mut k: usize = 0;
    while k < config.exclude.len()
        invariant
            k <= config.exclude@.len(),
            ex == model::str_views(config.exclude@),
            d@ == dirs_below(root@, p@),
            forall|m: int| 0 <= m < k ==> !scanner::has_component(d@, #[trigger] ex[m]),
        decreases config.exclude@.len() - k,
    {
        let x = chars_of(config.exclude[k].as_str());
        if scanner::path_has_component(d.as_slice(), x.as_slice()) {
            assert(scanner::has_component(d@, ex[k as int]));
            return false;
        }
        k = k + 1;
    }
    true
}

/// The files a walk under the project root scans: of the walked paths, those that
/// `walk_keeps`, each once, in ascending path order.
pub fn select_walked(config: &Config, walked: &Vec<String>) -> (r: Vec<String>)
    ensures
        order::strictly_sorted(model::str_views(r@)),
        forall|x: Seq<char>|
            #[trigger] model::str_views(r@).to_set().contains(x) <==> exists|i: int|
                0 <= i < walked@.len() && #[trigger] walked@[i]@ == x && walk_keeps(
                    config.root@,
                    model::str_views(config.exclude@),
                    model::str_views(config.extensions@),
                    x,
                ),
{
    let root = chars_of(config.root.as_str());
    let ghost ex = model::str_views(config.exclude@);
    let ghost es = model::str_views(config.extensions@);
    let mut out: Vec<Vec<char>> = Vec::new();
    let mut i: usize = 0;
    while i < walked.len()
        invariant
            i <= walked@.len(),
            root@ == config.root@,
            ex == model::str_views(config.exclude@),
            es == model::str_views(config.extensions@),
            order::strictly_sorted(text::views(out@)),
            forall|x: Seq<char>|
                #[trigger] text::views(out@).to_set().contains(x) <==> exists|j: int|
                    0 <= j < i && #[trigger] walked@[j]@ == x && walk_keeps(config.root@, ex, es, x),
        decreases walked@.len() - i,
    {
        let ghost before = text::views(out@).to_set();
        if walk_keeps_exec(root.as_slice(), config, walked[i].as_str()) {
            order::insert_sorted(&mut out, chars_of(walked[i].as_str()));
        }
        assert forall|x: Seq<char>|
            #[trigger] text::views(out@).to_set().contains(x) <==> exists|j: int|
                0 <= j < i + 1 && #[trigger] walked@[j]@ == x && walk_keeps(config.root@, ex, es, x) by {
            if exists|j: int| 0 <= j < i + 1 && #[trigger] walked@[j]@ == x && walk_keeps(config.root@, ex, es, x) {
                let j = choose|j: int| 0 <= j < i + 1 && #[trigger] walked@[j]@ == x && walk_keeps(config.root@, ex, es, x);
                if j < i {
                    assert(before.contains(x));
                }
            }
            assert(before.contains(x) <==> exists|j: int|
                0 <= j < i && #[trigger] walked@[j]@ == x && walk_keeps(config.root@, ex, es, x));
        }
        i = i + 1;
    }
    let mut r: Vec<String> = Vec::new();
    let mut k: usize = 0;
    while k < out.len()
        invariant
            k <= out@.len(),
            model::str_views(r@) =~= text::views(out@).subrange(0, k as int),
        decreases out@.len() - k,
    {
        let ghost before = r@;
        r.push(string_from_chars(out[k].as_slice()));
        assert(model::str_views(r@) =~= model::str_views(before).push(out@[k as int]@));
        assert(text::views(out@).subrange(0, k + 1) =~= text::views(out@).subrange(0, k as int).push(out@[k as int]@));
        k = k + 1;
    }
    assert(model::str_views(r@) =~= text::views(out@));
    r
}

/// `d` added to the groups: appended to the group of its ID, or a new group.
pub open spec fn add_decl(gs: Seq<(model::IdV, Seq<model::DeclarationV>)>, d: model::DeclarationV) -> Seq<(model::IdV, Seq<model::DeclarationV>)> {
    match group_index(gs, d.id) {
        Some(k) => gs.update(k, (gs[k].0, gs[k].1.push(d))),
        None => gs.push((d.id, seq![d])),
    }
}

pub open spec fn add_decls(gs: Seq<(model::IdV, Seq<model::DeclarationV>)>, ds: Seq<model::DeclarationV>, k: int) -> Seq<(model::IdV, Seq<model::DeclarationV>)>
    decreases k,
{
    if k <= 0 || k > ds.len() {
        gs
    } else {
        add_decl(add_decls(gs, ds, k - 1), ds[k - 1])
    }
}

/// No two groups have the same ID.
pub open spec fn groups_distinct(gs: Seq<(model::IdV, Seq<model::DeclarationV>)>) -> bool {
    forall|i: int, j: int|
        0 <= i < j < gs.len() ==> model::id_key(#[trigger] gs[i].0) != model::id_key(#[trigger] gs[j].0)
}

/// Every group has at least one declaration, each of that group's ID.
pub open spec fn groups_coherent(gs: Seq<(model::IdV, Seq<model::DeclarationV>)>) -> bool {
    forall|i: int|
        0 <= i < gs.len() ==> #[trigger] gs[i].1.len() > 0 && forall|j: int|
            0 <= j < gs[i].1.len() ==> model::id_key(#[trigger] gs[i].1[j].id) == model::id_key(gs[i].0)
}

/// Adding a declaration keeps the groups keyed by distinct IDs and coherent.
pub proof fn lemma_add_decl_keeps_groups(gs: Seq<(model::IdV, Seq<model::DeclarationV>)>, d: model::DeclarationV)
    requires
        groups_distinct(gs),
        groups_coherent(gs),
    ensures
        groups_distinct(add_decl(gs, d)),
        groups_coherent(add_decl(gs, d)),
{
    checker::lemma_group_index_from(gs, d.id, 0);
    let r = add_decl(gs, d);
    match group_index(gs, d.id) {
        Some(k) => {
            assert forall|i: int| 0 <= i < r.len() implies #[trigger] r[i].1.len() > 0 && forall|j: int|
                0 <= j < r[i].1.len() ==> model::id_key(#[trigger] r[i].1[j].id) == model::id_key(r[i].0) by {
                if i == k {
                    assert forall|j: int|
                        0 <= j < r[i].1.len() implies model::id_key(#[trigger] r[i].1[j].id) == model::id_key(r[i].0) by {
                        if j < gs[k].1.len() {
                            assert(r[i].1[j] == gs[k].1[j]);
                        }
                    }
                }
            }
        },
        None => {
            assert forall|i: int, j: int|
                0 <= i < j < r.len() implies model::id_key(#[trigger] r[i].0) != model::id_key(#[trigger] r[j].0) by {
                if j == gs.len() {
                    assert(model::id_key(gs[i].0) != model::id_key(d.id));
                }
            }
        },
    }
}

proof fn lemma_add_decls_keeps_groups(gs: Seq<(model::IdV, Seq<model::DeclarationV>)>, ds: Seq<model::DeclarationV>, k: int)
    requires
        groups_distinct(gs),
        groups_coherent(gs),
    ensures
        groups_distinct(add_decls(gs, ds, k)),
        groups_coherent(add_decls(gs, ds, k)),
    decreases k,
{
    if 0 < k <= ds.len() {
        lemma_add_decls_keeps_groups(gs, ds, k - 1);
        lemma_add_decl_keeps_groups(add_decls(gs, ds, k - 1), ds[k - 1]);
    }
}

/// What a walk over `fs` (the first `k` files) has found: the groups, the citations,
/// the files read, and the files that could not be read.
pub ghost struct TreeScanV {
    pub groups: Seq<(model::IdV, Seq<model::DeclarationV>)>,
    pub cits: Seq<model::CitationV>,
    pub files: Seq<Seq<char>>,
    pub errors: Seq<(Seq<char>, Seq<char>)>,
}

pub open spec fn scan_files_upto(c: Config, g: grammar::GrammarV, tg: Seq<(Seq<char>, grammar::GrammarV)>, fs: Seq<SourceFile>, k: int) -> TreeScanV
    decreases k,
{
    if k <= 0 || k > fs.len() {
        TreeScanV { groups: Seq::empty(), cits: Seq::empty(), files: Seq::empty(), errors: Seq::empty() }
    } else {
        let prev = scan_files_upto(c, g, tg, fs, k - 1);
        let f = fs[k - 1];
        match f.content {
            Ok(t) => {
                let (ds, cs) = scanner::scan_text(scanner::file_ctx_in(g, c, tg, f.path@), t@);
                TreeScanV {
                    groups: add_decls(prev.groups, ds, ds.len() as int),
                    cits: prev.cits + cs,
                    files: prev.files.push(f.path@),
                    errors: prev.errors,
                }
            },
            Err(m) => TreeScanV { errors: prev.errors.push((f.path@, m@)), ..prev },
        }
    }
}

/// The literal text between `{kind}` and the next placeholder (or the end) of an
/// ID format: the glue an `E2E-<name>` ID is written with.
pub open spec fn literal_after_kind(f: Seq<char>) -> Option<Seq<char>> {
    match text::find_from(f, grammar::kind_placeholder(), 0) {
        Some(s) => {
            let rest = f.subrange(s + 6, f.len() as int);
            match text::find_from(rest, seq!['{'], 0) {
                Some(e) => Some(rest.subrange(0, e)),
                None => Some(rest),
            }
        },
        None => None,
    }
}

pub fn literal_after_kind_placeholder(f: &[char]) -> (r: Option<Vec<char>>)
    ensures
        match r {
            Some(v) => literal_after_kind(f@) == Some(v@),
            None => literal_after_kind(f@) is None,
        },
{
    let n = f.len();
    let kp = vec!['{', 'k', 'i', 'n', 'd', '}'];
    assert(kp@ =~= grammar::kind_placeholder());
    match text::find_seq(f, kp.as_slice(), 0) {
        Some(s) => {
            proof {
                text::lemma_find_from_bounds(f@, kp@, 0);
                assert(kp@.len() == 6);
            }
            let rest = text::slice_range(f, s + 6, f.len());
            let ob = vec!['{'];
            assert(ob@ =~= seq!['{']);
            match text::find_seq(rest.as_slice(), ob.as_slice(), 0) {
                Some(e) => {
                    proof {
                        text::lemma_find_from_bounds(rest@, ob@, 0);
                    }
                    Some(text::slice_range(rest.as_slice(), 0, e))
                },
                None => Some(rest),
            }
        },
        None => None,
    }
}

/// The ID of the e2e case directory `name`: `E2E`, the format's glue, and the name,
/// read back as a whole ID of kind `E2E` without a section.
pub open spec fn e2e_id(g: grammar::GrammarV, format: Seq<char>, name: Seq<char>) -> Option<model::IdV> {
    match literal_after_kind(format) {
        Some(lit) => match grammar::parse_id_arg(g, "E2E"@ + lit + name) {
            Some((id, None)) => if id.kind == "E2E"@ {
                Some(id)
            } else {
                None
            },
            _ => None,
        },
        None => None,
    }
}

pub fn e2e_id_from_case_dir_name(config: &Config, g: &Grammar, name: &str) -> (r: Option<Id>)
    requires
        g.wf(),
    ensures
        match r {
            Some(id) => e2e_id(g@, config.id_format@, name@) == Some(id@),
            None => e2e_id(g@, config.id_format@, name@) is None,
        },
{
    let fv = chars_of(config.id_format.as_str());
    let lit = match literal_after_kind_placeholder(fv.as_slice()) {
        Some(l) => l,
        None => {
            return None;
        },
    };
    let mut raw = chars_of("E2E");
    text::push_all(&mut raw, lit.as_slice());
    let nv = chars_of(name);
    text::push_all(&mut raw, nv.as_slice());
    let e2e = String::from_str("E2E");
    match g.parse_id_arg(raw.as_slice()) {
        Some((id, None)) => {
            if id.kind.eq(&e2e) {
                Some(id)
            } else {
                None
            }
        },
        _ => None,
    }
}

/// The e2e case directory name an `E2E` ID names: the rendered ID less the `E2E`
/// prefix and the format's glue (`-` when the format has none).
pub open spec fn e2e_case_dir_name(format: Seq<char>, rendered: Seq<char>) -> Seq<char> {
    let glue = match literal_after_kind(format) {
        Some(l) => l,
        None => seq!['-'],
    };
    let prefix = "E2E"@ + glue;
    if text::starts_with(rendered, prefix) {
        rendered.subrange(prefix.len() as int, rendered.len() as int)
    } else {
        rendered
    }
}

/// The directory name `e2e_case_dir_name` gives for a rendered `E2E` ID reads back
/// (through `e2e_id`) as the ID that rendered text itself denotes.
pub proof fn lemma_case_dir_name_reads_back(g: grammar::GrammarV, format: Seq<char>, rendered: Seq<char>)
    requires
        literal_after_kind(format) is Some,
        text::starts_with(rendered, "E2E"@ + literal_after_kind(format)->0),
    ensures
        e2e_id(g, format, e2e_case_dir_name(format, rendered)) == match grammar::parse_id_arg(g, rendered) {
            Some((id, None)) => if id.kind == "E2E"@ {
                Some(id)
            } else {
                None
            },
            _ => None,
        },
{
    let lit = literal_after_kind(format)->0;
    let prefix = "E2E"@ + lit;
    let name = rendered.subrange(prefix.len() as int, rendered.len() as int);
    assert(e2e_case_dir_name(format, rendered) == name);
    assert(rendered.subrange(0, prefix.len() as int) =~= prefix);
    assert("E2E"@ + lit + name =~= rendered);
}

pub fn e2e_case_dir_name_exec(config: &Config, rendered: &str) -> (r: String)
    ensures
        r@ == e2e_case_dir_name(config.id_format@, rendered@),
{
    let fv = chars_of(config.id_format.as_str());
    let glue = match literal_after_kind_placeholder(fv.as_slice()) {
        Some(l) => l,
        None => {
            let d = vec!['-'];
            assert(d@ =~= seq!['-']);
            d
        },
    };
    let mut prefix = chars_of("E2E");
    text::push_all(&mut prefix, glue.as_slice());
    let rv = chars_of(rendered);
    if text::matches_at(rv.as_slice(), 0, prefix.as_slice()) {
        let rest = text::slice_range(rv.as_slice(), prefix.len(), rv.len());
        string_from_chars(rest.as_slice())
    } else {
        String::from_str(rendered)
    }
}

/// The declaration an e2e case directory registers, if its name makes an ID.
pub open spec fn case_decl(g: grammar::GrammarV, format: Seq<char>, dir: Seq<char>, case: model::E2eCaseV) -> Option<model::DeclarationV> {
    let name = scanner::file_name(dir);
    match e2e_id(g, format, name) {
        Some(id) => Some(
            model::DeclarationV {
                id,
                file: dir,
                line: 1,
                heading_level: 1,
                sections: Seq::empty(),
                is_stub: false,
                defined_in: None,
                e2e: Some(case),
                title: Some("e2e case `"@ + name + "`"@),
            },
        ),
        None => None,
    }
}

/// The case directories (the first `k`) added to a walk's result; the first case
/// that could not be read is an error at `<root>/e2e/cases`.
pub open spec fn add_cases(c: Config, g: grammar::GrammarV, acc: TreeScanV, cs: Seq<CaseDir>, k: int) -> TreeScanV
    decreases k,
{
    if k <= 0 || k > cs.len() {
        acc
    } else {
        let prev = add_cases(c, g, acc, cs, k - 1);
        if prev.errors.len() > acc.errors.len() {
            prev
        } else {
            match cs[k - 1].case {
                Ok(case) => match case_decl(g, c.id_format@, cs[k - 1].dir@, case@) {
                    Some(d) => TreeScanV { groups: add_decl(prev.groups, d), ..prev },
                    None => prev,
                },
                Err(m) => TreeScanV {
                    errors: prev.errors.push((checker::join_path(c.root@, "e2e/cases"@), m@)),
                    ..prev
                },
            }
        }
    }
}

/// Where a citation stands: its file, line and column.
pub open spec fn citation_key(c: model::CitationV) -> KeyV {
    KeyV { path: Some(c.file), line: c.line as int, col: c.column as int, text: Seq::empty() }
}

pub open spec fn citation_keys(s: Seq<model::CitationV>) -> Seq<KeyV> {
    Seq::new(s.len(), |i: int| citation_key(s[i]))
}

/// Citations in source order: by file path, then line, then column, ties kept in
/// the order they were found.
pub open spec fn source_order(s: Seq<model::CitationV>) -> Seq<model::CitationV> {
    order::sort_by_keys(s, citation_keys(s))
}

/// The whole walk of a project whose workspace siblings are `tg`: every file, then
/// the e2e cases. With siblings, a line's qualified citations are found in a pass
/// of their own, so the citations are then put back in source order.
pub open spec fn scan_tree_in(c: Config, g: grammar::GrammarV, tg: Seq<(Seq<char>, grammar::GrammarV)>, fs: Seq<SourceFile>, cs: Seq<CaseDir>) -> TreeScanV {
    let v = add_cases(c, g, scan_files_upto(c, g, tg, fs, fs.len() as int), cs, cs.len() as int);
    if tg.len() > 0 {
        TreeScanV { cits: source_order(v.cits), ..v }
    } else {
        v
    }
}

/// The whole walk of a project on its own: no workspace siblings.
pub open spec fn scan_tree(c: Config, g: grammar::GrammarV, fs: Seq<SourceFile>, cs: Seq<CaseDir>) -> TreeScanV {
    scan_tree_in(c, g, Seq::empty(), fs, cs)
}

proof fn lemma_scan_files_groups(c: Config, g: grammar::GrammarV, tg: Seq<(Seq<char>, grammar::GrammarV)>, fs: Seq<SourceFile>, k: int)
    ensures
        groups_distinct(scan_files_upto(c, g, tg, fs, k).groups),
        groups_coherent(scan_files_upto(c, g, tg, fs, k).groups),
    decreases k,
{
    if 0 < k <= fs.len() {
        lemma_scan_files_groups(c, g, tg, fs, k - 1);
        match fs[k - 1].content {
            Ok(t) => {
                let (ds, cs) = scanner::scan_text(scanner::file_ctx_in(g, c, tg, fs[k - 1].path@), t@);
                lemma_add_decls_keeps_groups(scan_files_upto(c, g, tg, fs, k - 1).groups, ds, ds.len() as int);
            },
            Err(_) => {},
        }
    }
}

proof fn lemma_add_cases_groups(c: Config, g: grammar::GrammarV, acc: TreeScanV, cs: Seq<CaseDir>, k: int)
    requires
        groups_distinct(acc.groups),
        groups_coherent(acc.groups),
    ensures
        groups_distinct(add_cases(c, g, acc, cs, k).groups),
        groups_coherent(add_cases(c, g, acc, cs, k).groups),
    decreases k,
{
    if 0 < k <= cs.len() {
        lemma_add_cases_groups(c, g, acc, cs, k - 1);
        let prev = add_cases(c, g, acc, cs, k - 1);
        match cs[k - 1].case {
            Ok(case) => match case_decl(g, c.id_format@, cs[k - 1].dir@, case@) {
                Some(d) => lemma_add_decl_keeps_groups(prev.groups, d),
                None => {},
            },
            Err(_) => {},
        }
    }
}

/// A walk groups declarations by ID, whatever the workspace siblings: one group per
/// ID, each non-empty and holding only declarations of that ID.
pub proof fn lemma_scan_tree_groups(c: Config, g: grammar::GrammarV, tg: Seq<(Seq<char>, grammar::GrammarV)>, fs: Seq<SourceFile>, cs: Seq<CaseDir>)
    ensures
        groups_distinct(scan_tree_in(c, g, tg, fs, cs).groups),
        groups_coherent(scan_tree_in(c, g, tg, fs, cs).groups),
{
    lemma_scan_files_groups(c, g, tg, fs, fs.len() as int);
    lemma_add_cases_groups(c, g, scan_files_upto(c, g, tg, fs, fs.len() as int), cs, cs.len() as int);
}

/// The comment-block site of line `line` of the file at `path` whose text is `t`.
pub open spec fn site_in(c: Config, g: grammar::GrammarV, tg: Seq<(Seq<char>, grammar::GrammarV)>, path: Seq<char>, t: Seq<char>, line: usize) -> Option<model::InlineCitationSite> {
    comment_blocks::site_at(comment_blocks::inline_sites(scanner::file_ctx_in(g, c, tg, path), t), line)
}

/// `x` carries the site its line has in the text of its file, one of `fs`.
pub open spec fn site_fits(c: Config, g: grammar::GrammarV, tg: Seq<(Seq<char>, grammar::GrammarV)>, fs: Seq<SourceFile>, x: Citation) -> bool {
    exists|i: int|
        0 <= i < fs.len() && (#[trigger] fs[i]).path@ == x.file@ && match fs[i].content {
            Ok(t) => x.inline_site == site_in(c, g, tg, x.file@, t@, x.line),
            Err(_) => false,
        }
}

pub open spec fn findings_view(f: Findings) -> (Seq<(model::IdV, Seq<model::DeclarationV>)>, Seq<model::CitationV>, Seq<Seq<char>>) {
    (groups_view(f.declarations@), model::citation_views(f.citations@), model::str_views(f.scanned_files@))
}

/// Adds one declaration to the findings' groups.
pub fn add_declaration(groups: &mut Vec<DeclGroup>, d: Declaration)
    ensures
        groups_view(final(groups)@) == add_decl(groups_view(old(groups)@), d@),
{
    let ghost gv = groups_view(groups@);
    let mut k: usize = 0;
    while k < groups.len()
        invariant
            k <= groups@.len(),
            *groups == *old(groups),
            gv == groups_view(groups@),
            group_index(gv, d@.id) == checker::group_index_from(gv, d@.id, k as int),
        decreases groups@.len() - k,
    {
        if groups[k].id.same(&d.id) {
            assert(model::id_key(gv[k as int].0) == model::id_key(d@.id));
            assert(checker::group_index_from(gv, d@.id, k as int) == Some(k as int));
            let mut grp = groups.remove(k);
            let ghost before = grp.decls@;
            grp.decls.push(d);
            assert(model::decl_views(grp.decls@) =~= model::decl_views(before).push(d@));
            groups.insert(k, grp);
            assert(groups_view(groups@) =~= gv.update(k as int, (gv[k as int].0, gv[k as int].1.push(d@))));
            assert(add_decl(gv, d@) == gv.update(k as int, (gv[k as int].0, gv[k as int].1.push(d@))));
            return;
        }
        k = k + 1;
    }
    let id = d.id.copy();
    let mut decls: Vec<Declaration> = Vec::new();
    decls.push(d);
    assert(model::decl_views(decls@) =~= seq![d@]);
    groups.push(DeclGroup { id, decls });
    assert(groups_view(groups@) =~= gv.push((d@.id, seq![d@])));
}

/// Merges one file's scan into the findings.
fn add_file_scan(f: &mut Findings, path: &String, fs: scanner::FileScan)
    ensures
        final(f).citations@ == old(f).citations@ + fs.citations@,
        findings_view(*final(f)) == ({
            let (g0, c0, s0) = findings_view(*old(f));
            (
                add_decls(g0, model::decl_views(fs.declarations@), fs.declarations@.len() as int),
                c0 + model::citation_views(fs.citations@),
                s0.push(path@),
            )
        }),
{
    let ghost dv = model::decl_views(fs.declarations@);
    let ghost gv0 = groups_view(f.declarations@);
    let mut m: usize = 0;
    let mut rest = fs.declarations;
    let mut cits = fs.citations;
    let n = rest.len();
    while m < n
        invariant
            m <= n,
            n == dv.len(),
            model::decl_views(rest@) == dv.subrange(m as int, n as int),
            groups_view(f.declarations@) == add_decls(gv0, dv, m as int),
            gv0 == groups_view(old(f).declarations@),
            dv == model::decl_views(fs.declarations@),
            f.citations@ == old(f).citations@,
            f.scanned_files@ == old(f).scanned_files@,
        decreases n - m,
    {
        assert(model::decl_views(rest@).len() == rest@.len());
        assert(rest@.len() == n - m);
        assert(model::decl_views(rest@)[0] == dv[m as int]);
        let ghost before = rest@;
        let d = rest.remove(0);
        assert(model::decl_views(rest@) =~= model::decl_views(before).drop_first());
        add_declaration(&mut f.declarations, d);
        m = m + 1;
    }
    let ghost c0 = model::citation_views(f.citations@);
    let ghost cv = model::citation_views(cits@);
    f.citations.append(&mut cits);
    assert(model::citation_views(f.citations@) =~= c0 + cv);
    let ghost s0 = model::str_views(f.scanned_files@);
    f.scanned_files.push(path.clone());
    assert(model::str_views(f.scanned_files@) =~= s0.push(path@));
}

/// Walks the files and case directories of a project on its own: the findings and
/// the files (or the case root) that could not be read, with why.
pub fn scan_tree_exec(config: &Config, g: &Grammar, files: &Vec<SourceFile>, cases: &Vec<CaseDir>) -> (r: (Findings, Vec<(String, String)>))
    requires
        g.wf(),
    ensures
        findings_view(r.0) == ({
            let v = scan_tree(*config, g@, files@, cases@);
            (v.groups, v.cits, v.files)
        }),
        Seq::new(r.1@.len(), |i: int| (r.1@[i].0@, r.1@[i].1@)) == scan_tree(*config, g@, files@, cases@).errors,
        forall|k: int|
            0 <= k < r.0.citations@.len() ==> site_fits(*config, g@, Seq::empty(), files@, #[trigger] r.0.citations@[k]),
{
    let none: Vec<WorkspaceTarget> = Vec::new();
    assert(scanner::target_views(none@) =~= Seq::empty());
    scan_tree_in_exec(config, g, &none, files, cases)
}

/// Walks the files and case directories of a workspace member whose siblings are
/// `targets`: the findings and the files (or the case root) that could not be read.
pub fn scan_tree_in_exec(
    config: &Config,
    g: &Grammar,
    targets: &Vec<WorkspaceTarget>,
    files: &Vec<SourceFile>,
    cases: &Vec<CaseDir>,
) -> (r: (Findings, Vec<(String, String)>))
    requires
        g.wf(),
    ensures
        findings_view(r.0) == ({
            let v = scan_tree_in(*config, g@, scanner::target_views(targets@), files@, cases@);
            (v.groups, v.cits, v.files)
        }),
        Seq::new(r.1@.len(), |i: int| (r.1@[i].0@, r.1@[i].1@)) == scan_tree_in(
            *config,
            g@,
            scanner::target_views(targets@),
            files@,
            cases@,
        ).errors,
        forall|k: int|
            0 <= k < r.0.citations@.len() ==> site_fits(
                *config,
                g@,
                scanner::target_views(targets@),
                files@,
                #[trigger] r.0.citations@[k],
            ),
{
    let ghost tg = scanner::target_views(targets@);
    let mut f = Findings { declarations: Vec::new(), citations: Vec::new(), scanned_files: Vec::new() };
    let mut errors: Vec<(String, String)> = Vec::new();
    let mut k: usize = 0;
    while k < files.len()
        invariant
            k <= files@.len(),
            g.wf(),
            tg == scanner::target_views(targets@),
            forall|m: int| 0 <= m < f.citations@.len() ==> site_fits(*config, g@, tg, files@, #[trigger] f.citations@[m]),
            findings_view(f) == ({
                let v = scan_files_upto(*config, g@, tg, files@, k as int);
                (v.groups, v.cits, v.files)
            }),
            Seq::new(errors@.len(), |i: int| (errors@[i].0@, errors@[i].1@)) == scan_files_upto(
                *config,
                g@,
                tg,
                files@,
                k as int,
            ).errors,
        decreases files@.len() - k,
    {
        let ghost ev = Seq::new(errors@.len(), |i: int| (errors@[i].0@, errors@[i].1@));
        let ghost prev = scan_files_upto(*config, g@, tg, files@, k as int);
        match &files[k].content {
            Ok(t) => {
                let fs = scanner::scan_text_in(files[k].path.as_str(), t.as_str(), config, g, targets);
                let ghost before = f.citations@;
                let ghost new_cits = fs.citations@;
                proof {
                    let ctx = scanner::file_ctx_in(g@, *config, tg, files@[k as int].path@);
                    scanner::lemma_scan_text_file(ctx, t@);
                    assert forall|m: int| 0 <= m < new_cits.len() implies site_fits(*config, g@, tg, files@, #[trigger] new_cits[m]) by {
                        assert(model::citation_views(new_cits)[m] == new_cits[m]@);
                        assert(new_cits[m].file@ == files@[k as int].path@);
                        assert(files@[k as int].content == Ok::<String, String>(*t));
                    }
                }
                add_file_scan(&mut f, &files[k].path, fs);
                proof {
                    assert forall|m: int| 0 <= m < f.citations@.len() implies site_fits(*config, g@, tg, files@, #[trigger] f.citations@[m]) by {
                        if m < before.len() {
                            assert(f.citations@[m] == before[m]);
                        } else {
                            assert(f.citations@[m] == new_cits[m - before.len()]);
                        }
                    }
                }
                proof {
                    let st = scanner::scan_text(scanner::file_ctx_in(g@, *config, tg, files@[k as int].path@), t@);
                    assert(scan_files_upto(*config, g@, tg, files@, k + 1) == TreeScanV {
                        groups: add_decls(prev.groups, st.0, st.0.len() as int),
                        cits: prev.cits + st.1,
                        files: prev.files.push(files@[k as int].path@),
                        errors: prev.errors,
                    });
                }
            },
            Err(m) => {
                errors.push((files[k].path.clone(), m.clone()));
                assert(Seq::new(errors@.len(), |i: int| (errors@[i].0@, errors@[i].1@)) =~= ev.push(
                    (files@[k as int].path@, m@),
                ));
                assert(scan_files_upto(*config, g@, tg, files@, k + 1) == TreeScanV {
                    errors: prev.errors.push((files@[k as int].path@, m@)),
                    ..prev
                });
            },
        }
        k = k + 1;
    }
    let ghost acc = scan_files_upto(*config, g@, tg, files@, files@.len() as int);
    let ghost e0 = errors@.len();
    let mut c: usize = 0;
    let mut failed = false;
    while c < cases.len()
        invariant
            c <= cases@.len(),
            g.wf(),
            e0 == acc.errors.len(),
            errors@.len() >= e0,
            failed == (errors@.len() > e0),
            tg == scanner::target_views(targets@),
            forall|m: int| 0 <= m < f.citations@.len() ==> site_fits(*config, g@, tg, files@, #[trigger] f.citations@[m]),
            findings_view(f) == ({
                let v = add_cases(*config, g@, acc, cases@, c as int);
                (v.groups, v.cits, v.files)
            }),
            Seq::new(errors@.len(), |i: int| (errors@[i].0@, errors@[i].1@)) == add_cases(
                *config,
                g@,
                acc,
                cases@,
                c as int,
            ).errors,
        decreases cases@.len() - c,
    {
        let ghost ev = Seq::new(errors@.len(), |i: int| (errors@[i].0@, errors@[i].1@));
        if !failed {
            match &cases[c].case {
                Ok(case) => {
                    let dv = chars_of(cases[c].dir.as_str());
                    let name_v = scanner::file_name_of(dv.as_slice());
                    let name = string_from_chars(name_v.as_slice());
                    match e2e_id_from_case_dir_name(config, g, name.as_str()) {
                        Some(id) => {
                            let mut title = String::from_str("e2e case `");
                            title.append(name.as_str());
                            title.append("`");
                            let d = Declaration {
                                id,
                                file: cases[c].dir.clone(),
                                line: 1,
                                heading_level: 1,
                                sections: Vec::new(),
                                is_stub: false,
                                defined_in: None,
                                e2e_case: Some(copy_case(case)),
                                title: Some(title),
                            };
                            assert(d@.sections =~= Seq::empty());
                            add_declaration(&mut f.declarations, d);
                        },
                        None => {},
                    }
                },
                Err(m) => {
                    let at = checker::join_path_exec(config.root.as_str(), "e2e/cases");
                    errors.push((at, m.clone()));
                    failed = true;
                    assert(Seq::new(errors@.len(), |i: int| (errors@[i].0@, errors@[i].1@)) =~= ev.push(
                        (checker::join_path(config.root@, "e2e/cases"@), m@),
                    ));
                },
            }
        }
        c = c + 1;
    }
    if targets.len() > 0 {
        let ghost unsorted = f.citations@;
        let sorted = sort_citations(&f.citations);
        proof {
            assert forall|m: int| 0 <= m < sorted@.len() implies site_fits(*config, g@, tg, files@, #[trigger] sorted@[m]) by {
                let j = choose|j: int| 0 <= j < unsorted.len() && sorted@[m]@ == unsorted[j]@ && sorted@[m].inline_site
                    == unsorted[j].inline_site;
                assert(site_fits(*config, g@, tg, files@, unsorted[j]));
                assert(sorted@[m].file@ == unsorted[j].file@ && sorted@[m].line == unsorted[j].line);
            }
        }
        f.citations = sorted;
    }
    (f, errors)
}

fn copy_citation(c: &Citation) -> (r: Citation)
    ensures
        r@ == c@,
        r.inline_site == c.inline_site,
{
    Citation {
        namespace: model::copy_opt_string(&c.namespace),
        id: c.id.copy(),
        section: model::copy_opt_string(&c.section),
        file: c.file.clone(),
        line: c.line,
        column: c.column,
        has_marker: c.has_marker,
        text: c.text.clone(),
        inline_site: c.inline_site,
    }
}

/// The citations in source order.
fn sort_citations(v: &Vec<Citation>) -> (r: Vec<Citation>)
    ensures
        model::citation_views(r@) == source_order(model::citation_views(v@)),
        forall|i: int|
            0 <= i < r@.len() ==> exists|j: int|
                0 <= j < v@.len() && (#[trigger] r@[i])@ == v@[j]@ && r@[i].inline_site == v@[j].inline_site,
{
    let ghost cv = model::citation_views(v@);
    let mut keys: Vec<SortKey> = Vec::new();
    let mut i: usize = 0;
    while i < v.len()
        invariant
            i <= v@.len(),
            cv == model::citation_views(v@),
            order::key_views(keys@) =~= Seq::new(i as nat, |m: int| citation_key(cv[m])),
        decreases v@.len() - i,
    {
        let ghost before = keys@;
        keys.push(SortKey { path: Some(chars_of(v[i].file.as_str())), line: v[i].line, col: v[i].column, text: Vec::new() });
        assert(order::key_views(keys@) =~= order::key_views(before).push(citation_key(cv[i as int])));
        i = i + 1;
    }
    let p = order::sort_order(&keys);
    let ghost ks = order::key_views(keys@);
    let mut out: Vec<Citation> = Vec::new();
    let mut j: usize = 0;
    while j < p.len()
        invariant
            j <= p@.len(),
            order::is_order(ks, p@),
            ks.len() == v@.len(),
            cv == model::citation_views(v@),
            model::citation_views(out@) =~= Seq::new(j as nat, |m: int| cv[p@[m] as int]),
            forall|m: int|
                0 <= m < out@.len() ==> (#[trigger] out@[m])@ == v@[p@[m] as int]@ && out@[m].inline_site
                    == v@[p@[m] as int].inline_site,
        decreases p@.len() - j,
    {
        let ghost before = out@;
        out.push(copy_citation(&v[p[j]]));
        assert(model::citation_views(out@) =~= model::citation_views(before).push(cv[p@[j as int] as int]));
        j = j + 1;
    }
    proof {
        order::lemma_sort_by_keys_is(cv, ks, p@);
        assert(ks =~= Seq::new(cv.len(), |m: int| citation_key(cv[m])));
        assert forall|i: int| 0 <= i < out@.len() implies exists|j: int|
            0 <= j < v@.len() && (#[trigger] out@[i])@ == v@[j]@ && out@[i].inline_site == v@[j].inline_site by {
            let j = p@[i] as int;
            assert(0 <= j < v@.len());
        }
    }
    out
}

fn copy_strings(v: &Vec<String>) -> (r: Vec<String>)
    ensures
        model::str_views(r@) == model::str_views(v@),
{
    let mut out: Vec<String> = Vec::new();
    let mut i: usize = 0;
    while i < v.len()
        invariant
            i <= v@.len(),
            model::str_views(out@) =~= model::str_views(v@).subrange(0, i as int),
        decreases v@.len() - i,
    {
        let ghost before = out@;
        out.push(v[i].clone());
        assert(model::str_views(out@) =~= model::str_views(before).push(v@[i as int]@));
        i = i + 1;
    }
    out
}

/// A copy of an e2e case's data.
pub fn copy_case(c: &E2eCase) -> (r: E2eCase)
    ensures
        r@ == c@,
{
    E2eCase {
        dir: c.dir.clone(),
        args: copy_strings(&c.args),
        expected_exit: c.expected_exit,
        fixtures: copy_strings(&c.fixtures),
    }
}

} // verus!
