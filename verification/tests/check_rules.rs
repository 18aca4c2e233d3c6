use grund::agents::{block_problem_exec, update_agents_text, AgentsUpdateResult};
use grund::api::{check, check_report, exit_code, scan, Report};
use grund::checker::{check_findings, display_path_exec, join_path_exec, stub_target_paths, AgentEntry, StubProbe};
use grund::grammar::Grammar;
use grund::model::{Config, Findings, KindConfig};
use grund::tree::{e2e_case_dir_name_exec, e2e_id_from_case_dir_name, scan_tree_exec, CaseDir, SourceFile};
use grund::model::E2eCase;

fn kind(p: &str) -> KindConfig {
    KindConfig { prefix: p.to_string(), folder: None, file: None, title: None }
}

fn config() -> Config {
    Config {
        root: "/repo".to_string(),
        project_name: None,
        marker: "§".to_string(),
        trigger: "$$".to_string(),
        strict: false,
        require_grounding: false,
        id_format: "{kind}-{slug}".to_string(),
        section_separator: ".".to_string(),
        slug_pattern: "[a-z0-9][a-z0-9-]*".to_string(),
        kinds: vec![kind("FS"), kind("AR"), kind("E2E")],
        extensions: vec!["md".to_string(), "rs".to_string()],
        comment_prefixes: vec!["//".to_string(), "#".to_string()],
        docstring_python: true,
        cross_ref_anchor_format: "github".to_string(),
        scan_roots: None,
        exclude: vec![],
        output_format: "text".to_string(),
        inline_style: "note".to_string(),
        inline_note_suggested_lines: 3,
        inline_note_max_lines: 8,
        inline_note_max_columns: 100,
        warn_on_suggested: false,
        section_heading_levels: "any".to_string(),
        number_pattern: "[0-9]{3}".to_string(),
        respect_gitignore: true,
        relative_paths: true,
        fmt_cross_refs_enabled: false,
        workspace_declared: false,
        workspace_members: vec![],
        workspace_include_root: true,
    }
}

fn file(path: &str, text: &str) -> SourceFile {
    SourceFile { path: path.to_string(), content: Ok(text.to_string()) }
}

fn scan_of(c: &Config, g: &Grammar, files: Vec<SourceFile>) -> Findings {
    scan(c, g, &files, &vec![]).unwrap()
}

fn messages(r: &Report) -> Vec<String> {
    r.errors.iter().map(|f| format!("{}:{}: {}", f.path.clone().unwrap_or_default(), f.line.unwrap_or(0), f.message)).collect()
}

#[test]
fn dangling_and_missing_section_are_errors() {
    let c = config();
    let g = Grammar::new(&c).unwrap();
    let f = scan_of(
        &c,
        &g,
        vec![
            file("/repo/docs/FS-alpha.md", "# FS-alpha: Alpha\n\n## 1. One\n"),
            file("/repo/src/a.rs", "// §FS-alpha.1 ok\n// §FS-alpha.9 missing\n// §FS-beta dangling\n"),
        ],
    );
    let r = check(&c, &g, &f, &vec![], &vec![], &vec![]);
    assert_eq!(
        messages(&r),
        vec![
            "src/a.rs:2: missing section FS-alpha.9".to_string(),
            "src/a.rs:3: unknown reference FS-beta".to_string(),
        ]
    );
    assert_eq!(r.errors[0].code, "missing-section");
    assert_eq!(r.errors[1].code, "dangling");
    assert_eq!(r.errors[1].severity, "error");
    assert!(r.warnings.is_empty());
    assert_eq!(exit_code(false, &r), 1);
}

#[test]
fn duplicate_declarations_name_every_site() {
    let c = config();
    let g = Grammar::new(&c).unwrap();
    let f = scan_of(
        &c,
        &g,
        vec![
            file("/repo/docs/b.md", "# FS-dup: B\n"),
            file("/repo/docs/a.md", "# FS-dup: A\n\nSee §FS-dup.\n"),
        ],
    );
    let r = check(&c, &g, &f, &vec![], &vec![], &vec![]);
    assert_eq!(r.errors.len(), 1);
    assert_eq!(r.errors[0].code, "duplicate");
    assert_eq!(r.errors[0].path.as_deref(), Some("docs/a.md"));
    assert_eq!(r.errors[0].line, Some(1));
    assert_eq!(r.errors[0].message, "duplicate declaration of FS-dup (also declared at docs/b.md:1)");
    assert_eq!(r.errors[0].sites.len(), 2);
    assert_eq!(r.errors[0].sites[1].path, "docs/b.md");
}

#[test]
fn unused_declaration_is_a_warning_except_e2e() {
    let c = config();
    let g = Grammar::new(&c).unwrap();
    let f = scan_of(&c, &g, vec![file("/repo/docs/x.md", "# FS-lonely: Nobody cites me\n# E2E-case: run\n")]);
    let r = check(&c, &g, &f, &vec![], &vec![], &vec![]);
    assert!(r.errors.is_empty());
    assert_eq!(r.warnings.len(), 1);
    assert_eq!(r.warnings[0].message, "declared but never cited: FS-lonely");
    assert_eq!(r.warnings[0].severity, "warning");
    assert_eq!(r.warnings[0].code, "unused");
    assert_eq!(exit_code(false, &r), 0);
}

#[test]
fn broken_stubs_missing_and_lacking() {
    let c = config();
    let g = Grammar::new(&c).unwrap();
    let f = scan_of(
        &c,
        &g,
        vec![
            file("/repo/docs/AR-one.md", "# AR-one: [src](src/one.rs)\n"),
            file("/repo/docs/AR-two.md", "# AR-two: [src](src/two.rs)\n"),
            file("/repo/docs/AR-three.md", "# AR-three: [src](src/three.rs)\n"),
            file("/repo/src/use.rs", "// §AR-one §AR-two §AR-three\n"),
        ],
    );
    let targets = stub_target_paths(&f, &c);
    assert_eq!(
        targets,
        vec!["/repo/src/one.rs".to_string(), "/repo/src/two.rs".to_string(), "/repo/src/three.rs".to_string()]
    );
    let probes = vec![
        StubProbe { path: "/repo/src/two.rs".to_string(), exists: true, text: Some("// nothing here\n".to_string()) },
        StubProbe {
            path: "/repo/src/three.rs".to_string(),
            exists: true,
            text: Some("// # AR-three: the real home\n".to_string()),
        },
    ];
    let r = check(&c, &g, &f, &vec![], &probes, &vec![]);
    assert_eq!(
        messages(&r),
        vec![
            "docs/AR-one.md:1: stub link target missing: src/one.rs".to_string(),
            "docs/AR-two.md:1: stub link target lacks AR-two: src/two.rs".to_string(),
        ]
    );
}

#[test]
fn ungrounded_source_files_when_required() {
    let mut c = config();
    c.require_grounding = true;
    let g = Grammar::new(&c).unwrap();
    let f = scan_of(
        &c,
        &g,
        vec![
            file("/repo/docs/FS-a.md", "# FS-a: A\n"),
            file("/repo/src/good.rs", "// §FS-a\n"),
            file("/repo/src/bad.rs", "fn main() {}\n"),
            file("/repo/src/dangling.rs", "// §FS-zzz\n"),
        ],
    );
    let r = check(&c, &g, &f, &vec![], &vec![], &vec![]);
    assert_eq!(
        messages(&r),
        vec![
            "src/bad.rs:1: ungrounded source file: no § citation to a declared ID".to_string(),
            "src/dangling.rs:1: ungrounded source file: no § citation to a declared ID".to_string(),
            "src/dangling.rs:1: unknown reference FS-zzz".to_string(),
        ]
    );
}

#[test]
fn agent_entrypoint_blocks() {
    assert_eq!(block_problem_exec("# A\n\n## Grounding with grund (v1)\nbody\n"), None);
    assert_eq!(
        block_problem_exec("x\n## Grounding with grund (v0)\n"),
        Some((2, "outdated grund init block v0 (run `grund init` to update to v1)".to_string()))
    );
    assert_eq!(
        block_problem_exec("## Grounding with grund (v7)\n"),
        Some((1, "unsupported grund init block v7 (this grund supports v1)".to_string()))
    );
    assert_eq!(
        block_problem_exec("a\nb\n<!-- grund:begin v1 -->\n"),
        Some((3, "malformed grund init block".to_string()))
    );
    assert_eq!(block_problem_exec("nothing\n"), Some((1, "missing grund init block v1".to_string())));
    let c = config();
    let g = Grammar::new(&c).unwrap();
    let f = scan_of(&c, &g, vec![]);
    let agents = vec![
        AgentEntry::Text { path: "/repo/AGENTS.md".to_string(), text: "hi\n".to_string() },
        AgentEntry::Unreadable { path: "/repo/AGENTS.override.md".to_string() },
    ];
    let r = check(&c, &g, &f, &vec![], &vec![], &agents);
    assert_eq!(
        messages(&r),
        vec!["AGENTS.md:1: missing grund init block v1".to_string(), "AGENTS.override.md:1: cannot read AGENTS.override.md".to_string()]
    );
}

#[test]
fn agents_text_update_appends_updates_and_refuses_newer() {
    let block = "## Grounding with grund (v1)\nnew body\n";
    let (t, k) = update_agents_text("# Project\n", block, "AGENTS.md").unwrap();
    assert_eq!(k, AgentsUpdateResult::Appended);
    assert_eq!(t, "# Project\n\n## Grounding with grund (v1)\nnew body\n");
    let (t2, k2) = update_agents_text(&t, block, "AGENTS.md").unwrap();
    assert_eq!(k2, AgentsUpdateResult::Unchanged);
    assert_eq!(t2, t);
    let old = "# P\n\n## Grounding with grund (v0)\nold\n\n## Other\nkeep\n";
    let (t3, k3) = update_agents_text(old, block, "AGENTS.md").unwrap();
    assert_eq!(k3, AgentsUpdateResult::Updated);
    assert_eq!(t3, "# P\n\n## Grounding with grund (v1)\nnew body\n\n## Other\nkeep\n");
    let err = update_agents_text("## Grounding with grund (v2)\n", block, "AGENTS.md").unwrap_err();
    assert_eq!(err, "AGENTS.md contains newer grund init block v2; this binary supports v1");
    let (t4, _) = update_agents_text("no newline", block, "AGENTS.md").unwrap();
    assert_eq!(t4, "no newline\n\n## Grounding with grund (v1)\nnew body\n");
}

#[test]
fn report_order_is_path_line_message() {
    let c = config();
    let g = Grammar::new(&c).unwrap();
    let f = scan_of(
        &c,
        &g,
        vec![file("/repo/src/z.rs", "// §FS-b §FS-a\n// §FS-c\n"), file("/repo/src/a.rs", "// §FS-q\n")],
    );
    let r = check(&c, &g, &f, &vec![], &vec![], &vec![]);
    assert_eq!(
        messages(&r),
        vec![
            "src/a.rs:1: unknown reference FS-q".to_string(),
            "src/z.rs:1: unknown reference FS-a".to_string(),
            "src/z.rs:1: unknown reference FS-b".to_string(),
            "src/z.rs:2: unknown reference FS-c".to_string(),
        ]
    );
}

#[test]
fn unreadable_files_and_empty_scans() {
    let c = config();
    let g = Grammar::new(&c).unwrap();
    let files = vec![
        SourceFile { path: "/repo/src/bad.rs".to_string(), content: Err("invalid UTF-8".to_string()) },
        file("/repo/docs/FS-a.md", "# FS-a: A\n§FS-a\n"),
    ];
    let err = scan(&c, &g, &files, &vec![]).err().unwrap();
    assert_eq!(err, "src/bad.rs: invalid UTF-8");
    let (f, errs) = scan_tree_exec(&c, &g, &files, &vec![]);
    assert_eq!(errs.len(), 1);
    let rep = check_report(&c, &g, &f, &errs, &vec![], &vec![]);
    assert_eq!(rep.errors.len(), 1);
    assert_eq!(rep.errors[0].code, "io");
    assert_eq!(rep.errors[0].line, None);
    let empty = scan_of(&c, &g, vec![]);
    let r = check(&c, &g, &empty, &vec![], &vec![], &vec![]);
    assert_eq!(r.warnings.len(), 1);
    assert_eq!(r.warnings[0].code, "empty-scan");
    assert_eq!(r.warnings[0].path, None);
    let raw = check_findings(&empty, &c, &g, &vec![], &vec![]);
    assert!(raw.errors.is_empty() && raw.warnings.is_empty());
    assert_eq!(exit_code(true, &r), 2);
}

#[test]
fn e2e_case_directories_declare_ids() {
    let c = config();
    let g = Grammar::new(&c).unwrap();
    let id = e2e_id_from_case_dir_name(&c, &g, "login-flow").unwrap();
    assert_eq!(id.kind, "E2E");
    assert_eq!(id.slug.as_deref(), Some("login-flow"));
    assert!(e2e_id_from_case_dir_name(&c, &g, "Bad Name").is_none());
    assert_eq!(e2e_case_dir_name_exec(&c, "E2E-login-flow"), "login-flow");
    let case = E2eCase { dir: "/repo/e2e/cases/login-flow".to_string(), args: vec!["check".to_string()], expected_exit: 0, fixtures: vec![] };
    let cases = vec![CaseDir { dir: "/repo/e2e/cases/login-flow".to_string(), case: Ok(case) }];
    let (f, errs) = scan_tree_exec(&c, &g, &vec![], &cases);
    assert!(errs.is_empty());
    assert_eq!(f.declarations.len(), 1);
    assert_eq!(f.declarations[0].decls[0].title.as_deref(), Some("e2e case `login-flow`"));
    let bad = vec![CaseDir { dir: "/repo/e2e/cases/x".to_string(), case: Err("parse failed".to_string()) }];
    let (_, errs2) = scan_tree_exec(&c, &g, &vec![], &bad);
    assert_eq!(errs2, vec![("/repo/e2e/cases".to_string(), "parse failed".to_string())]);
}

#[test]
fn paths_join_and_display() {
    assert_eq!(join_path_exec("/repo", "src/a.rs"), "/repo/src/a.rs");
    assert_eq!(join_path_exec("/repo/", "src/a.rs"), "/repo/src/a.rs");
    assert_eq!(join_path_exec("/repo", "/abs/a.rs"), "/abs/a.rs");
    assert_eq!(join_path_exec("", "a.rs"), "a.rs");
    assert_eq!(display_path_exec("/repo", "/repo/docs/a.md"), "docs/a.md");
    assert_eq!(display_path_exec("/repo", "/elsewhere/a.md"), "/elsewhere/a.md");
    assert_eq!(display_path_exec("/repo", "/repo"), "");
}

#[test]
fn numbered_ids_survive_a_slug_rename() {
    let mut c = config();
    c.id_format = "{kind}-{number}-{slug}".to_string();
    let g = Grammar::new(&c).unwrap();
    let f = scan_of(
        &c,
        &g,
        vec![
            file("/repo/docs/FS-014-user-login.md", "# FS-014-user-login: Login\n\n## 1. Flow\n"),
            file("/repo/src/a.rs", "// §FS-014-sign-in.1 still resolves\n// §FS-015-user-login dangling\n"),
        ],
    );
    let r = check(&c, &g, &f, &vec![], &vec![], &vec![]);
    assert_eq!(messages(&r), vec!["src/a.rs:2: unknown reference FS-015-user-login".to_string()]);
    assert!(r.warnings.is_empty());
}

#[test]
fn numbered_ids_with_one_number_are_duplicates() {
    let mut c = config();
    c.id_format = "{kind}-{number}-{slug}".to_string();
    let g = Grammar::new(&c).unwrap();
    let f = scan_of(
        &c,
        &g,
        vec![
            file("/repo/docs/a.md", "# FS-014-user-login: Login\n"),
            file("/repo/docs/b.md", "# FS-014-sign-in: Sign in\n"),
            file("/repo/src/a.rs", "// §FS-014-user-login\n"),
        ],
    );
    let r = check(&c, &g, &f, &vec![], &vec![], &vec![]);
    assert_eq!(r.errors.len(), 1);
    assert_eq!(r.errors[0].code, "duplicate");
}
