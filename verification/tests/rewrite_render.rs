use grund::api::{scan, Finding, FindingSite, Report};
use grund::grammar::Grammar;
use grund::links::{anchor_slug_exec, relative_url_exec};
use grund::model::{Config, KindConfig};
use grund::render::{
    effective_config, fmt_exit, fmt_summary_exec, id_proposal_output_exec, init_next_exec, render_report, update_label_exec, FmtChangeAt,
    IdProposal,
};
use grund::agents::AgentsUpdateResult;
use grund::rewrite::{flatten_cross_ref_links, fmt_file, FmtChange, FmtOpts};
use grund::scaffold::{
    canonical_template_text_exec, escape_toml_basic_exec, format_toml_string_list_exec, markdown_link_destination_exec,
    render_agents_md_exec, render_grund_toml_exec,
};
use grund::tree::SourceFile;
fn kind(p: &str) -> KindConfig {
    KindConfig { prefix: p.to_string(), folder: None, file: None, title: None }
}

fn config() -> Config {
    Config {
        root: "/repo".to_string(),
        project_name: None,
        marker: "§".to_string(),
        trigger: "$$".to_string(),
        strict: false,
        require_grounding: false,
        id_format: "{kind}-{slug}".to_string(),
        section_separator: ".".to_string(),
        slug_pattern: "[a-z0-9][a-z0-9-]*".to_string(),
        kinds: vec![kind("FS"), kind("AR"), kind("E2E")],
        extensions: vec!["md".to_string(), "rs".to_string()],
        comment_prefixes: vec!["///".to_string(), "//!".to_string(), "//".to_string(), "#".to_string()],
        docstring_python: true,
        cross_ref_anchor_format: "github".to_string(),
        scan_roots: None,
        exclude: vec![],
        output_format: "text".to_string(),
        inline_style: "note".to_string(),
        inline_note_suggested_lines: 3,
        inline_note_max_lines: 8,
        inline_note_max_columns: 100,
        warn_on_suggested: false,
        section_heading_levels: "any".to_string(),
        number_pattern: "[0-9]{3}".to_string(),
        respect_gitignore: true,
        relative_paths: true,
        fmt_cross_refs_enabled: false,
        workspace_declared: false,
        workspace_members: vec![],
        workspace_include_root: true,
    }
}

fn file(path: &str, text: &str) -> SourceFile {
    SourceFile { path: path.to_string(), content: Ok(text.to_string()) }
}

#[test]
fn fmt_rewrites_triggers_and_bare_tokens() {
    let c = config();
    let g = Grammar::new(&c).unwrap();
    let plain = FmtOpts { add_marker: false, cross_refs: false };
    let (t, changes) = fmt_file(&c, &g, None, &vec![], "/repo/docs/a.md", "See $$FS-alpha.1 here.\nNothing.\n", &plain);
    assert_eq!(t, "See §FS-alpha.1 here.\nNothing.\n");
    assert_eq!(changes.len(), 1);
    assert_eq!(changes[0].0, 1);
    assert_eq!(changes[0].1.label(), "trigger → marker");
    let marker = FmtOpts { add_marker: true, cross_refs: false };
    let (t2, ch2) = fmt_file(&c, &g, None, &vec![], "/repo/docs/a.md", "Cites FS-alpha bare.\nAlready §FS-beta.\n", &marker);
    assert_eq!(t2, "Cites §FS-alpha bare.\nAlready §FS-beta.\n");
    assert_eq!(ch2.len(), 1);
    assert_eq!(ch2[0].1.label(), "bare → marker");
    let (t3, ch3) = fmt_file(&c, &g, None, &vec![], "/repo/docs/a.md", "no change", &marker);
    assert_eq!(t3, "no change");
    assert!(ch3.is_empty());
}

#[test]
fn fmt_cross_refs_wrap_and_flatten_back() {
    let c = config();
    let g = Grammar::new(&c).unwrap();
    let files = vec![
        file("/repo/docs/FS-alpha.md", "# FS-alpha: Alpha Spec\n\n## 2. Second Part\n"),
        file("/repo/docs/guide.md", "Read §FS-alpha.2 now.\n"),
    ];
    let f = scan(&c, &g, &files, &vec![]).unwrap();
    let opts = FmtOpts { add_marker: false, cross_refs: true };
    let (t, ch) = fmt_file(&c, &g, Some(&f), &vec![], "/repo/docs/guide.md", "Read §FS-alpha.2 now.\n", &opts);
    assert_eq!(t, "Read [§FS-alpha.2](FS-alpha.md#2-second-part) now.\n");
    assert_eq!(ch[0].1.label(), "markdown link");
    let back = flatten_cross_ref_links(&g, &t, "§");
    assert_eq!(back, "Read §FS-alpha.2 now.\n");
    let (again, ch2) = fmt_file(&c, &g, Some(&f), &vec![], "/repo/docs/guide.md", &t, &opts);
    assert_eq!(again, t);
    assert!(ch2.is_empty());
}

#[test]
fn anchors_and_relative_urls() {
    assert_eq!(anchor_slug_exec("2 Second Part", "github"), "2-second-part".chars().collect::<Vec<_>>());
    assert_eq!(anchor_slug_exec("Hello, World!", "github"), "hello-world".chars().collect::<Vec<_>>());
    assert_eq!(relative_url_exec("/repo", "/repo/docs/guide.md", "/repo/docs/FS-a.md"), "FS-a.md".chars().collect::<Vec<_>>());
    assert_eq!(relative_url_exec("/repo", "/repo/docs/x/y.md", "/repo/src/a.rs"), "../../src/a.rs".chars().collect::<Vec<_>>());
}

#[test]
fn report_rendering_text_and_json() {
    let report = Report {
        errors: vec![Finding {
            severity: "error".to_string(),
            code: "dangling".to_string(),
            path: Some("src/a.rs".to_string()),
            line: Some(3),
            message: "unknown reference FS-x".to_string(),
            sites: vec![],
        }],
        warnings: vec![Finding {
            severity: "warning".to_string(),
            code: "empty-scan".to_string(),
            path: None,
            line: None,
            message: "nothing".to_string(),
            sites: vec![FindingSite { path: "a".to_string(), line: 1 }],
        }],
    };
    let out = render_report(&report, false);
    assert_eq!(out.stdout, vec!["src/a.rs:3: unknown reference FS-x".to_string()]);
    assert_eq!(out.stderr, vec!["warning: nothing".to_string()]);
    let json = render_report(&report, true);
    assert_eq!(
        json.stdout[0],
        "{\"severity\":\"error\",\"code\":\"dangling\",\"path\":\"src/a.rs\",\"line\":3,\"sites\":[],\"message\":\"unknown reference FS-x\"}"
    );
    assert_eq!(
        json.stdout[1],
        "{\"severity\":\"warning\",\"code\":\"empty-scan\",\"path\":null,\"line\":null,\"sites\":[{\"path\":\"a\",\"line\":1}],\"message\":\"nothing\"}"
    );
    let clean = render_report(&Report { errors: vec![], warnings: vec![] }, false);
    assert_eq!(clean.stdout, vec!["success".to_string()]);
}

#[test]
fn fmt_summaries_and_exit() {
    let cs = vec![
        FmtChangeAt { path: "/repo/a.md".to_string(), line: 2, change: FmtChange::Trigger },
        FmtChangeAt { path: "/repo/a.md".to_string(), line: 5, change: FmtChange::Bare },
        FmtChangeAt { path: "/repo/b.md".to_string(), line: 1, change: FmtChange::Link },
    ];
    assert_eq!(
        fmt_summary_exec("/repo", &cs, true),
        vec!["rewrote 3 references:".to_string(), "  a.md (2)".to_string(), "  b.md (1)".to_string()]
    );
    assert_eq!(
        fmt_summary_exec("/repo", &cs, false),
        vec!["a.md:2: trigger → marker".to_string(), "a.md:5: bare → marker".to_string(), "b.md:1: markdown link".to_string()]
    );
    assert_eq!(fmt_exit(false, &cs), 1);
    assert_eq!(fmt_exit(true, &cs), 0);
    assert_eq!(fmt_exit(false, &vec![]), 0);
}

#[test]
fn id_proposals() {
    let p = IdProposal {
        id: "FS-014-login".to_string(),
        kind: "FS".to_string(),
        number: Some(14),
        slug: "login".to_string(),
        folder: Some("docs/functional-spec".to_string()),
        e2e_case_dir: None,
    };
    assert_eq!(id_proposal_output_exec(&p, false, false).stdout, vec!["FS-014-login".to_string()]);
    assert_eq!(
        id_proposal_output_exec(&p, true, false).stdout,
        vec!["{\"id\":\"FS-014-login\",\"kind\":\"FS\",\"number\":14,\"slug\":\"login\",\"folder\":\"docs/functional-spec\"}".to_string()]
    );
    let ex = id_proposal_output_exec(&p, false, true);
    assert_eq!(
        ex.stderr,
        vec!["next: write the declaration at docs/functional-spec/FS-014-login.md  (H1: `# FS-014-login: <one-line statement>`), then cite it as §FS-014-login".to_string()]
    );
}

#[test]
fn scaffold_escapes_and_lists() {
    assert_eq!(escape_toml_basic_exec("a\"b\\c"), "a\\\"b\\\\c");
    assert_eq!(format_toml_string_list_exec(&vec!["md".to_string(), "r\"s".to_string()]), "[\"md\", \"r\\\"s\"]");
    assert_eq!(format_toml_string_list_exec(&vec![]), "[]");
    assert_eq!(markdown_link_destination_exec("docs/a.md"), "docs/a.md".chars().collect::<Vec<_>>());
    assert_eq!(markdown_link_destination_exec("my docs/a.md"), "<my docs/a.md>".chars().collect::<Vec<_>>());
    assert_eq!(canonical_template_text_exec("a\r\nb\rc\n"), "a\nb\nc\n");
}

#[test]
fn effective_config_lists_every_setting() {
    let mut c = config();
    c.project_name = Some("Demo \"X\"".to_string());
    let lines = effective_config(&c);
    assert_eq!(lines[0], "grund_config_version = 1");
    assert_eq!(lines[1], "project_name = \"Demo \\\"X\\\"\"");
    assert_eq!(lines[2], "");
    assert_eq!(lines[3], "[reference]");
    assert_eq!(lines[4], "marker = \"§\"");
    assert!(lines.contains(&"format = \"{kind}-{slug}\"".to_string()));
    assert!(lines.contains(&"slug_pattern = \"[a-z0-9][a-z0-9-]*\"".to_string()));
    assert!(!lines.iter().any(|l| l.starts_with("number_pattern")));
    assert!(lines.contains(&"[[kinds]]".to_string()));
    assert!(lines.contains(&"prefix = \"E2E\"".to_string()));
    assert!(lines.contains(&"extensions = [\"md\", \"rs\"]".to_string()));
    assert!(lines.contains(&"include = []".to_string()));
    assert_eq!(lines.last().unwrap(), "anchor_format = \"github\"");
    c.workspace_declared = true;
    c.workspace_members = vec!["crates/*".to_string()];
    let ws = effective_config(&c);
    assert_eq!(ws[ws.len() - 2], "members = [\"crates/*\"]");
    assert_eq!(ws[ws.len() - 1], "include_root = true");
}

#[test]
fn grund_toml_fills_and_escapes_the_name() {
    let r = render_grund_toml_exec("[project]\r\nname = \"{NAME}\"\r\n", "my \"app\"");
    assert_eq!(r, "[project]\nname = \"my \\\"app\\\"\"\n");
}

#[test]
fn agents_md_has_a_title_then_the_block() {
    let c = config();
    let r = render_agents_md_exec("Project {NAME} cites {MARKER}{ID_EXAMPLE}; type {TRIGGER}.\n", "demo", &c);
    assert_eq!(r, "# demo \u{2014} agent instructions\n\nProject demo cites \u{a7}FS-user-login; type $$.\n");
}

#[test]
fn init_labels_and_next_hints() {
    assert_eq!(update_label_exec(AgentsUpdateResult::Appended, "AGENTS.md"), "appended AGENTS.md");
    assert_eq!(update_label_exec(AgentsUpdateResult::Updated, "AGENTS.md"), "updated AGENTS.md");
    assert_eq!(update_label_exec(AgentsUpdateResult::Unchanged, "AGENTS.md"), "exists AGENTS.md");
    let plain = init_next_exec(false);
    assert_eq!(plain.len(), 6);
    assert_eq!(plain[1], "next:");
    assert!(plain[2].starts_with("  1. re-run with --docs"));
    let docs = init_next_exec(true);
    assert_eq!(docs.len(), 7);
    assert_eq!(docs[6], "see AGENTS.md for the full workflow.");
}

#[test]
fn folded_anchor_profiles_decompose_accents() {
    assert_eq!(anchor_slug_exec("Café Déjà Vu", "mkdocs"), "cafe-deja-vu".chars().collect::<Vec<_>>());
    assert_eq!(anchor_slug_exec("3.1 Über  Alles", "pandoc"), "3.1-uber-alles".chars().collect::<Vec<_>>());
    assert_eq!(anchor_slug_exec("A — B", "gitlab"), "a--b".chars().collect::<Vec<_>>());
}

#[test]
fn slug_pattern_decides_what_is_an_id() {
    let mut c = config();
    c.slug_pattern = "[a-z]+".to_string();
    let g = Grammar::new(&c).unwrap();
    let f = scan(&c, &g, &vec![SourceFile { path: "/repo/docs/a.md".to_string(), content: Ok("# FS-abc: A\n\nSee §FS-abc and §FS-x9.\n".to_string()) }], &vec![]).unwrap();
    assert_eq!(f.declarations.len(), 1);
    assert_eq!(f.citations.len(), 1);
    assert_eq!(f.citations[0].id.slug.as_deref(), Some("abc"));
    let mut bad = config();
    bad.slug_pattern = "[a-z".to_string();
    assert!(Grammar::new(&bad).is_none());
}

#[test]
fn flatten_leaves_text_without_link_wrappers_alone() {
    let c = config();
    let g = Grammar::new(&c).unwrap();
    let body = "See §FS-alpha.1 and [a link] (not a wrapper).\n`[§FS-alpha]` in code\nlast line";
    assert_eq!(flatten_cross_ref_links(&g, body, "§"), body);
    assert_eq!(flatten_cross_ref_links(&g, "x [§FS-alpha.1](a.md#1-one) y\n", "§"), "x §FS-alpha.1 y\n");
}

#[test]
fn cross_refs_read_a_section_missing_from_the_scan_from_its_home() {
    let c = config();
    let g = Grammar::new(&c).unwrap();
    // `# 2. Two` sits at the declaration's own heading level, so the scan does not
    // record it as a section; the link anchor is found by reading the home again.
    let home_text = "# FS-alpha: Alpha\n\n## 1. One\n\n# 2. Two\n";
    let files = vec![SourceFile { path: "/repo/docs/FS-alpha.md".to_string(), content: Ok(home_text.to_string()) }];
    let f = scan(&c, &g, &files, &vec![]).unwrap();
    let opts = FmtOpts { add_marker: false, cross_refs: true };
    let (t, _) = fmt_file(&c, &g, Some(&f), &files, "/repo/docs/guide.md", "See §FS-alpha.2.\n", &opts);
    assert_eq!(t, "See [§FS-alpha.2](FS-alpha.md#2-two).\n");
    let (t2, ch2) = fmt_file(&c, &g, Some(&f), &vec![], "/repo/docs/guide.md", "See §FS-alpha.2.\n", &opts);
    assert_eq!(t2, "See §FS-alpha.2.\n");
    assert!(ch2.is_empty());
}

#[test]
fn agents_guidance_names_configured_homes_and_scope() {
    let mut c = config();
    c.kinds = vec![
        KindConfig { prefix: "FS".to_string(), folder: Some("specs".to_string()), file: None, title: Some("Product spec".to_string()) },
        KindConfig { prefix: "ADR".to_string(), folder: Some("records/adr".to_string()), file: None, title: Some("Architecture decision".to_string()) },
        KindConfig { prefix: "AR".to_string(), folder: None, file: None, title: None },
    ];
    c.scan_roots = Some(vec!["specs".to_string(), "records".to_string(), "crates".to_string()]);
    let r = render_agents_md_exec("{DECLARATION_MAP}\nScanned: {SCAN_SCOPE}.\n", "Configured", &c);
    assert!(r.contains("| `FS` | `specs` | Product spec |"));
    assert!(r.contains("| `ADR` | `records/adr` | Architecture decision |"));
    assert!(r.contains("| `AR` | inline | Declaration |"));
    assert!(r.contains("Scanned: `specs`, `records`, `crates`."));
    assert!(!r.contains("docs/decisions/"));
    let d = render_agents_md_exec("{SCAN_SCOPE}", "x", &config());
    assert!(d.ends_with("`docs`, `e2e`, `src`"));
}
