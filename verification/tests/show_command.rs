use grund::api::{scan, ShowFormat, ShowMode, ShowOpts, ShowRenderMode};
use grund::grammar::Grammar;
use grund::model::{Config, E2eCase, Findings, KindConfig};
use grund::show::{show, show_in_workspace, ShowProject};
use grund::tree::{scan_tree_exec, CaseDir, SourceFile};

fn kind(p: &str) -> KindConfig {
    KindConfig { prefix: p.to_string(), folder: None, file: None, title: None }
}

fn config() -> Config {
    Config {
        root: "/repo".to_string(),
        project_name: None,
        marker: "§".to_string(),
        trigger: "$$".to_string(),
        strict: false,
        require_grounding: false,
        id_format: "{kind}-{slug}".to_string(),
        section_separator: ".".to_string(),
        slug_pattern: "[a-z0-9][a-z0-9-]*".to_string(),
        kinds: vec![kind("FS"), kind("AR"), kind("E2E")],
        extensions: vec!["md".to_string(), "rs".to_string()],
        comment_prefixes: vec!["///".to_string(), "//!".to_string(), "//".to_string(), "#".to_string()],
        docstring_python: true,
        cross_ref_anchor_format: "github".to_string(),
        scan_roots: None,
        exclude: vec![],
        output_format: "text".to_string(),
        inline_style: "note".to_string(),
        inline_note_suggested_lines: 3,
        inline_note_max_lines: 8,
        inline_note_max_columns: 100,
        warn_on_suggested: false,
        section_heading_levels: "any".to_string(),
        number_pattern: "[0-9]{3}".to_string(),
        respect_gitignore: true,
        relative_paths: true,
        fmt_cross_refs_enabled: false,
        workspace_declared: false,
        workspace_members: vec![],
        workspace_include_root: true,
    }
}

fn file(path: &str, text: &str) -> SourceFile {
    SourceFile { path: path.to_string(), content: Ok(text.to_string()) }
}

const SPEC: &str = "# FS-alpha: Alpha\n\nLead paragraph one.\nStill lead.\n\nSecond paragraph.\n\n## 1. First\n\nOne body with [§FS-alpha.2](FS-alpha.md#2-second).\n\n### 1.1 Deep\n\nDeep body.\n\n## 2. Second\n\nTwo body.\n\n# FS-beta: Beta\n\nBeta body.\n";

fn setup() -> (Config, Grammar, Findings, Vec<SourceFile>) {
    let c = config();
    let g = Grammar::new(&c).unwrap();
    let files = vec![
        file("/repo/docs/FS-alpha.md", SPEC),
        file("/repo/src/router.rs", "/// AR-router: Router\n/// Routes §FS-alpha requests.\n///\n/// ## 1. Topology\n/// One sender.\npub fn router() {}\n"),
    ];
    let f = scan(&c, &g, &files, &vec![]).unwrap();
    (c, g, f, files)
}

fn opts(mode: ShowMode, format: ShowFormat, section: Option<&str>) -> ShowOpts {
    ShowOpts { path: ".".to_string(), section: section.map(|s| s.to_string()), mode, format }
}

#[test]
fn show_lead_stops_at_first_section() {
    let (c, g, f, files) = setup();
    let out = show(&c, &g, &f, &files, &vec![], "FS-alpha", &opts(ShowMode::Lead, ShowFormat::Text, None)).unwrap();
    assert_eq!(out.body, "# FS-alpha: Alpha\n\nLead paragraph one.\nStill lead.\n\nSecond paragraph.\n\n");
    assert_eq!(out.path, "/repo/docs/FS-alpha.md");
    assert_eq!(out.line, 1);
    assert!(out.json.is_none());
}

#[test]
fn show_brief_is_heading_and_first_paragraph() {
    let (c, g, f, files) = setup();
    let out = show(&c, &g, &f, &files, &vec![], "FS-alpha", &opts(ShowMode::Brief, ShowFormat::Text, None)).unwrap();
    assert_eq!(out.body, "# FS-alpha: Alpha\n\nLead paragraph one.\nStill lead.\n");
}

#[test]
fn show_full_runs_to_next_declaration_and_flattens_links() {
    let (c, g, f, files) = setup();
    let out = show(&c, &g, &f, &files, &vec![], "FS-alpha", &opts(ShowMode::Full, ShowFormat::Text, None)).unwrap();
    assert!(out.body.starts_with("# FS-alpha: Alpha\n"));
    assert!(out.body.contains("One body with §FS-alpha.2.\n"));
    assert!(out.body.ends_with("Two body.\n\n"));
    assert!(!out.body.contains("FS-beta"));
    let md = show(&c, &g, &f, &files, &vec![], "FS-alpha", &opts(ShowMode::Full, ShowFormat::Markdown, None)).unwrap();
    assert!(md.body.contains("[§FS-alpha.2](FS-alpha.md#2-second)"));
}

#[test]
fn show_toc_lists_sections() {
    let (c, g, f, files) = setup();
    let out = show(&c, &g, &f, &files, &vec![], "FS-alpha", &opts(ShowMode::Toc, ShowFormat::Text, None)).unwrap();
    assert_eq!(
        out.body,
        "# FS-alpha: Alpha\n\nLead paragraph one.\nStill lead.\n\nSecond paragraph.\n\n\n1 First\n  1.1 Deep\n2 Second\n"
    );
    assert_eq!(out.sections.len(), 3);
    assert_eq!(out.sections[1].path, "1.1");
    assert_eq!(out.sections[1].title, "Deep");
    assert_eq!(out.sections[1].depth, 2);
}

#[test]
fn show_section_slices_to_next_sibling() {
    let (c, g, f, files) = setup();
    let out = show(&c, &g, &f, &files, &vec![], "FS-alpha.1", &opts(ShowMode::Full, ShowFormat::Text, None)).unwrap();
    assert_eq!(out.body, "## 1. First\n\nOne body with §FS-alpha.2.\n\n### 1.1 Deep\n\nDeep body.\n\n");
    let lead = show(&c, &g, &f, &files, &vec![], "FS-alpha", &opts(ShowMode::Lead, ShowFormat::Text, Some("1"))).unwrap();
    assert_eq!(lead.body, "## 1. First\n\nOne body with §FS-alpha.2.\n\n");
}

#[test]
fn show_source_home_strips_comment_markers() {
    let (c, g, f, files) = setup();
    let out = show(&c, &g, &f, &files, &vec![], "AR-router", &opts(ShowMode::Full, ShowFormat::Text, None)).unwrap();
    assert_eq!(out.body, "AR-router: Router\nRoutes §FS-alpha requests.\n\n## 1. Topology\nOne sender.\n");
    assert_eq!(out.line, 1);
}

#[test]
fn show_errors_name_what_is_missing() {
    let (c, g, f, files) = setup();
    let o = opts(ShowMode::Lead, ShowFormat::Text, None);
    assert_eq!(show(&c, &g, &f, &files, &vec![], "FS-nope", &o).err().unwrap(), "ID not found: FS-nope");
    assert_eq!(show(&c, &g, &f, &files, &vec![], "FS-alpha.9", &o).err().unwrap(), "section not found: FS-alpha.9");
    assert_eq!(
        show(&c, &g, &f, &files, &vec![], "not an id", &o).err().unwrap(),
        "invalid ID `not an id`: expected the [id] format `{kind}-{slug}`"
    );
    let both = opts(ShowMode::Lead, ShowFormat::Text, Some("1"));
    assert_eq!(
        show(&c, &g, &f, &files, &vec![], "FS-alpha.2", &both).err().unwrap(),
        "--section cannot be combined with an inline section"
    );
    let unread = vec![SourceFile { path: "/repo/docs/FS-alpha.md".to_string(), content: Err("gone".to_string()) }];
    assert_eq!(show(&c, &g, &f, &unread, &vec![], "FS-alpha", &o).err().unwrap(), "docs/FS-alpha.md: gone");
    assert_eq!(show(&c, &g, &f, &vec![], &vec![], "FS-alpha", &o).err().unwrap(), "docs/FS-alpha.md: not among the scanned files");
}

#[test]
fn show_json_document() {
    let (c, g, f, files) = setup();
    let out = show(&c, &g, &f, &files, &vec![], "FS-beta", &opts(ShowMode::Lead, ShowFormat::Json, None)).unwrap();
    assert_eq!(
        out.json.unwrap(),
        "{\"id\":\"FS-beta\",\"section\":null,\"body\":\"# FS-beta: Beta\\n\\nBeta body.\\n\",\"path\":\"docs/FS-alpha.md\",\"line\":20}"
    );
    let toc = show(&c, &g, &f, &files, &vec![], "FS-alpha.1", &opts(ShowMode::Toc, ShowFormat::Json, None)).unwrap();
    let j = toc.json.unwrap();
    assert!(j.starts_with("{\"id\":\"FS-alpha\",\"section\":\"1\","));
    assert!(j.ends_with(",\"line\":1,\"sections\":[{\"path\":\"1.1\",\"title\":\"Deep\",\"depth\":1}]}"));
}

#[test]
fn show_e2e_case_lists_command_exit_and_fixtures() {
    let c = config();
    let g = Grammar::new(&c).unwrap();
    let case = E2eCase {
        dir: "/repo/e2e/cases/login".to_string(),
        args: vec!["check".to_string(), "--format".to_string(), "json".to_string()],
        expected_exit: -1,
        fixtures: vec!["a.md".to_string(), "b/c.rs".to_string()],
    };
    let cases = vec![CaseDir { dir: "/repo/e2e/cases/login".to_string(), case: Ok(case) }];
    let (f, _) = scan_tree_exec(&c, &g, &vec![], &cases);
    let out = show(&c, &g, &f, &vec![], &vec![], "E2E-login", &opts(ShowMode::Lead, ShowFormat::Text, None)).unwrap();
    assert_eq!(out.body, "E2E-login\ncommand: grund check --format json\nexit: -1\nfixtures: a.md, b/c.rs\n");
    assert_eq!(
        show(&c, &g, &f, &vec![], &vec![], "E2E-login.1", &opts(ShowMode::Lead, ShowFormat::Text, None)).err().unwrap(),
        "section not found: E2E-login.1"
    );
}

#[test]
fn show_modes_map_to_render_modes() {
    assert_eq!(ShowMode::Brief.render_mode(), ShowRenderMode::Brief);
    assert_eq!(ShowMode::Lead.render_mode(), ShowRenderMode::Default);
    assert_eq!(ShowMode::Toc.render_mode(), ShowRenderMode::Toc);
    assert_eq!(ShowMode::Full.render_mode(), ShowRenderMode::Full);
}

#[test]
fn show_refuses_an_id_with_two_homes() {
    let (c, g, _, _) = setup();
    let files = vec![
        file("/repo/docs/b.md", "# FS-dup: Second\n"),
        file("/repo/docs/a.md", "# FS-dup: First\n"),
    ];
    let f = scan(&c, &g, &files, &vec![]).unwrap();
    let o = opts(ShowMode::Lead, ShowFormat::Text, None);
    assert_eq!(
        show(&c, &g, &f, &files, &vec![], "FS-dup", &o).err().unwrap(),
        "ambiguous ID: FS-dup (declared at docs/a.md:1, docs/b.md:1)"
    );
}

#[test]
fn show_fails_on_the_first_unreadable_file_of_the_scan() {
    let (c, g, f, files) = setup();
    let o = opts(ShowMode::Lead, ShowFormat::Text, None);
    let errs = vec![("/repo/src/bad.rs".to_string(), "permission denied".to_string())];
    assert_eq!(show(&c, &g, &f, &files, &errs, "FS-alpha", &o).err().unwrap(), "src/bad.rs: permission denied");
}

#[test]
fn show_in_a_workspace_follows_the_alias() {
    let (c, g, f, files) = setup();
    let grammar = Grammar::new(&c).unwrap();
    let api_project = ShowProject { alias: "api".to_string(), config: c, grammar, findings: f, files, scan_errors: vec![] };
    let projects = vec![api_project];
    let o = opts(ShowMode::Lead, ShowFormat::Text, None);
    let out = show_in_workspace(&projects, None, "api/FS-alpha", &o).unwrap();
    assert_eq!(out.path, "/repo/docs/FS-alpha.md");
    assert_eq!(show_in_workspace(&projects, None, "web/FS-alpha", &o).err().unwrap(), "unknown project alias `web`");
    assert_eq!(
        show_in_workspace(&projects, None, "FS-alpha", &o).err().unwrap(),
        "unqualified ID requires a project alias when include_root = false"
    );
    assert!(show_in_workspace(&projects, Some(0), "FS-alpha", &o).is_ok());
}
