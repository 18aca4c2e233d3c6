use grund::grammar::Grammar;
use grund::model::{Config, KindConfig};
use grund::scanner::{scan_text_in, scan_text_of, WorkspaceTarget};
use grund::tree::{scan_tree_in_exec, SourceFile};

fn kind(p: &str) -> KindConfig {
    KindConfig { prefix: p.to_string(), folder: None, file: None, title: None }
}

fn config() -> Config {
    Config {
        root: "/repo".to_string(),
        project_name: None,
        marker: "§".to_string(),
        trigger: "$$".to_string(),
        strict: false,
        require_grounding: false,
        id_format: "{kind}-{slug}".to_string(),
        section_separator: ".".to_string(),
        slug_pattern: "[a-z0-9][a-z0-9-]*".to_string(),
        kinds: vec![kind("FS"), kind("AR")],
        extensions: vec!["md".to_string(), "rs".to_string()],
        comment_prefixes: vec!["//".to_string(), "#".to_string()],
        docstring_python: true,
        cross_ref_anchor_format: "github".to_string(),
        scan_roots: None,
        exclude: vec![],
        output_format: "text".to_string(),
        inline_style: "note".to_string(),
        inline_note_suggested_lines: 3,
        inline_note_max_lines: 8,
        inline_note_max_columns: 100,
        warn_on_suggested: false,
        section_heading_levels: "any".to_string(),
        number_pattern: "[0-9]{3}".to_string(),
        respect_gitignore: true,
        relative_paths: true,
        fmt_cross_refs_enabled: false,
        workspace_declared: false,
        workspace_members: vec![],
        workspace_include_root: true,
    }
}

#[test]
fn scans_markdown_declaration_and_citation() {
    let c = config();
    let g = Grammar::new(&c).unwrap();
    let text = "# FS-alpha: Alpha\n\nLead.\n\n## 1. Detail\nSee §AR-router.2 here.\n";
    let r = scan_text_of("docs/FS-alpha.md", text, &c, &g);
    assert_eq!(r.declarations.len(), 1);
    assert_eq!(r.declarations[0].id.kind, "FS");
    assert_eq!(r.declarations[0].id.slug.as_deref(), Some("alpha"));
    assert_eq!(r.declarations[0].title.as_deref(), Some("Alpha"));
    assert_eq!(r.declarations[0].sections.len(), 1);
    assert_eq!(r.declarations[0].sections[0].0, "1");
    assert_eq!(r.citations.len(), 1);
    assert_eq!(r.citations[0].id.slug.as_deref(), Some("router"));
    assert_eq!(r.citations[0].section.as_deref(), Some("2"));
    assert_eq!(r.citations[0].text, "§AR-router.2");
    assert!(r.citations[0].has_marker);
    assert_eq!(r.citations[0].line, 6);
}

#[test]
fn workspace_citation_parses_with_target_grammar() {
    let c = config();
    let g = Grammar::new(&c).unwrap();
    let mut tc = config();
    tc.kinds = vec![kind("SPEC")];
    let tg = Grammar::new(&tc).unwrap();
    let targets = vec![WorkspaceTarget::new("api".to_string(), tg)];
    let files = vec![SourceFile {
        path: "docs/notes.md".to_string(),
        content: Ok("See §api/SPEC-auth.3 and §FS-alpha.\n".to_string()),
    }];
    let (f, errs) = scan_tree_in_exec(&c, &g, &targets, &files, &vec![]);
    assert!(errs.is_empty());
    assert_eq!(f.citations.len(), 2);
    let q = f.citations.iter().find(|x| x.namespace.is_some()).unwrap();
    assert_eq!(q.namespace.as_deref(), Some("api"));
    assert_eq!(q.id.kind, "SPEC");
    assert_eq!(q.id.slug.as_deref(), Some("auth"));
    assert_eq!(q.section.as_deref(), Some("3"));
    assert_eq!(q.text, "§api/SPEC-auth.3");
    let local = f.citations.iter().find(|x| x.namespace.is_none()).unwrap();
    assert_eq!(local.id.kind, "FS");
    assert_eq!(local.text, "§FS-alpha");
    // source order: the qualified citation comes first on the line
    assert_eq!(f.citations[0].namespace.as_deref(), Some("api"));
    assert_eq!(f.citations[1].text, "§FS-alpha");
}

#[test]
fn unmarked_alias_path_is_not_a_citation() {
    let c = config();
    let g = Grammar::new(&c).unwrap();
    let mut tc = config();
    tc.kinds = vec![kind("SPEC")];
    let tg = Grammar::new(&tc).unwrap();
    let targets = vec![WorkspaceTarget::new("api".to_string(), tg)];
    let r = scan_text_in("docs/notes.md", "Path api/SPEC-auth is prose.\n", &c, &g, &targets);
    assert!(r.citations.iter().all(|x| x.namespace.is_none()));
}

#[test]
fn citation_columns_count_bytes() {
    let c = config();
    let g = Grammar::new(&c).unwrap();
    let r = scan_text_of("docs/notes.md", "Voilà §FS-alpha et «AR-router»\n", &c, &g);
    assert_eq!(r.citations.len(), 2);
    assert_eq!(r.citations[0].column, 8);
    assert_eq!(r.citations[0].text, "§FS-alpha");
    assert_eq!(r.citations[1].column, 24);
    assert_eq!(r.citations[1].text, "AR-router");
}

#[test]
fn a_note_beside_non_ascii_citations_is_found_by_bytes() {
    let c = config();
    let g = Grammar::new(&c).unwrap();
    let r = scan_text_of("src/a.rs", "// §FS-alpha\n// «§AR-router»\nfn f() {}\n", &c, &g);
    assert_eq!(r.citations.len(), 2);
    let site = r.citations[0].inline_site.unwrap();
    assert_eq!(site.first_line, 1);
    assert_eq!(site.last_line, 2);
    assert_eq!(site.max_columns, "// «§AR-router»".len());
    assert!(site.has_note);
    let only = scan_text_of("src/c.rs", "// §FS-alpha §AR-router §FS-alpha.2\n", &c, &g);
    assert_eq!(only.citations.len(), 3);
    assert!(!only.citations[0].inline_site.unwrap().has_note);
    let noted = scan_text_of("src/d.rs", "// §FS-alpha é\n", &c, &g);
    assert!(noted.citations[0].inline_site.unwrap().has_note);
}

#[test]
fn walk_selection_sorts_filters_and_dedups() {
    let mut c = config();
    c.exclude = vec!["target".to_string()];
    let walked: Vec<String> = vec![
        "/repo/src/b.rs",
        "/repo/docs/a.md",
        "/repo/target/x.rs",
        "/repo/src/.cache/y.rs",
        "/repo/src/.hidden.rs",
        "/repo/src/notes.txt",
        "/repo/src/b.rs",
    ]
    .into_iter()
    .map(String::from)
    .collect();
    let r = grund::tree::select_walked(&c, &walked);
    assert_eq!(r, vec!["/repo/docs/a.md".to_string(), "/repo/src/b.rs".to_string()]);
}
