use grund::api::scan;
use grund::propose::{propose_id, IdOutcome};
use grund::grammar::Grammar;
use grund::model::{Config, Findings, Id, KindConfig};
use grund::queries::{
    add_kind_filters, complete_ids, cover_output_exec, json_escape_exec, list_entries_exec, list_lines_exec,
    refs_output_exec, summary_lines_exec, unknown_kind_error_exec,
};
use grund::tree::SourceFile;

fn kind(p: &str) -> KindConfig {
    KindConfig { prefix: p.to_string(), folder: None, file: None, title: None }
}

fn config() -> Config {
    Config {
        root: "/repo".to_string(),
        project_name: None,
        marker: "§".to_string(),
        trigger: "$$".to_string(),
        strict: false,
        require_grounding: false,
        id_format: "{kind}-{slug}".to_string(),
        section_separator: ".".to_string(),
        slug_pattern: "[a-z0-9][a-z0-9-]*".to_string(),
        kinds: vec![kind("FS"), kind("AR"), kind("E2E")],
        extensions: vec!["md".to_string(), "rs".to_string()],
        comment_prefixes: vec!["///".to_string(), "//!".to_string(), "//".to_string(), "#".to_string()],
        docstring_python: true,
        cross_ref_anchor_format: "github".to_string(),
        scan_roots: None,
        exclude: vec![],
        output_format: "text".to_string(),
        inline_style: "note".to_string(),
        inline_note_suggested_lines: 3,
        inline_note_max_lines: 8,
        inline_note_max_columns: 100,
        warn_on_suggested: false,
        section_heading_levels: "any".to_string(),
        number_pattern: "[0-9]{3}".to_string(),
        respect_gitignore: true,
        relative_paths: true,
        fmt_cross_refs_enabled: false,
        workspace_declared: false,
        workspace_members: vec![],
        workspace_include_root: true,
    }
}

fn file(path: &str, text: &str) -> SourceFile {
    SourceFile { path: path.to_string(), content: Ok(text.to_string()) }
}

fn id(k: &str, slug: &str) -> Id {
    Id { kind: k.to_string(), num: None, slug: Some(slug.to_string()) }
}

fn setup() -> (Config, Grammar, Findings) {
    let c = config();
    let g = Grammar::new(&c).unwrap();
    let files = vec![
        file("/repo/docs/FS-alpha.md", "# FS-alpha: Alpha\n\n## 1. One\n\n## 2. Two\n"),
        file("/repo/docs/AR-stub.md", "# AR-stub: [src](src/a.rs)\n"),
        file("/repo/src/a.rs", "// §FS-alpha.1 first\nfn f() {}\n// §FS-alpha and §FS-alpha.2\n"),
        file("/repo/src/b.rs", "fn none() {}\n"),
    ];
    let f = scan(&c, &g, &files, &vec![]).unwrap();
    (c, g, f)
}

#[test]
fn json_escaping() {
    assert_eq!(json_escape_exec("a\"b\\c\nd\te\u{1}"), "a\\\"b\\\\c\\nd\\te\\u0001");
    assert_eq!(json_escape_exec("§ plain"), "§ plain");
}

#[test]
fn refs_lists_citations_in_order() {
    let (c, g, f) = setup();
    let (lines, note) = refs_output_exec(&c, &g, &f, &id("FS", "alpha"), &None, false, false);
    assert_eq!(
        lines,
        vec![
            "src/a.rs:1: §FS-alpha.1".to_string(),
            "src/a.rs:3: §FS-alpha".to_string(),
            "src/a.rs:3: §FS-alpha.2".to_string(),
        ]
    );
    assert!(note.is_none());
    let (only2, _) = refs_output_exec(&c, &g, &f, &id("FS", "alpha"), &Some("2".to_string()), false, false);
    assert_eq!(only2, vec!["src/a.rs:3: §FS-alpha.2".to_string()]);
    let (summary, _) = refs_output_exec(&c, &g, &f, &id("FS", "alpha"), &None, true, false);
    assert_eq!(summary, vec!["src/a.rs: 3 (lines 1, 3)".to_string()]);
    let (json, _) = refs_output_exec(&c, &g, &f, &id("FS", "alpha"), &Some("1".to_string()), false, true);
    assert_eq!(
        json,
        vec!["{\"path\":\"src/a.rs\",\"line\":1,\"column\":4,\"id\":\"FS-alpha\",\"section\":\"1\",\"marker\":true,\"text\":\"§FS-alpha.1\"}".to_string()]
    );
    let (none, note) = refs_output_exec(&c, &g, &f, &id("FS", "ghost"), &None, false, false);
    assert!(none.is_empty());
    assert_eq!(
        note.unwrap(),
        "note: FS-ghost is neither declared nor cited — run `grund list` to see every declared ID"
    );
}

#[test]
fn cover_lists_every_scanned_file() {
    let (c, g, f) = setup();
    let out = cover_output_exec(&c, &g, &f, false);
    assert!(out.contains(&"src/b.rs:".to_string()));
    assert!(out.contains(&"  (no citations)".to_string()));
    assert!(out.contains(&"  1:4 §FS-alpha.1".to_string()));
    let json = cover_output_exec(&c, &g, &f, true);
    assert!(json.contains(&"{\"path\":\"src/b.rs\",\"citations\":[]}".to_string()));
}

#[test]
fn list_catalog_lines_and_summary() {
    let (c, g, f) = setup();
    let es = list_entries_exec(&c.root, &vec![], false, &f);
    let lines = list_lines_exec(&c.root, &g, &f, &es, false);
    assert_eq!(lines.len(), 2);
    assert!(lines.contains(&"AR-stub   docs/AR-stub.md:1  → src/a.rs".to_string()));
    assert!(lines.contains(&"FS-alpha  docs/FS-alpha.md:1  Alpha".to_string()));
    let unused = list_entries_exec(&c.root, &vec![], true, &f);
    assert_eq!(unused.len(), 1);
    let mut filter = Vec::new();
    add_kind_filters(&mut filter, "FS,XX");
    assert_eq!(filter, vec!["FS".to_string(), "XX".to_string()]);
    let err = unknown_kind_error_exec(&filter, &c).unwrap();
    assert_eq!(err.0, "unknown kind `XX`");
    assert_eq!(err.1, "known kinds: FS, AR, E2E");
    let fs_only = list_entries_exec(&c.root, &vec!["FS".to_string()], false, &f);
    assert_eq!(fs_only.len(), 1);
    let summary = summary_lines_exec(&c, &f, &es, false);
    assert_eq!(summary, vec!["FS      1  ".to_string(), "AR      1  ".to_string()]);
}

#[test]
fn completion_offers_sorted_matches() {
    let (_, g, f) = setup();
    assert_eq!(complete_ids(&g, &f, "", false), vec!["AR-stub".to_string(), "FS-alpha".to_string()]);
    assert_eq!(complete_ids(&g, &f, "FS", false), vec!["FS-alpha".to_string()]);
    assert_eq!(complete_ids(&g, &f, "FS-alpha.", false), vec!["FS-alpha.1".to_string(), "FS-alpha.2".to_string()]);
    assert_eq!(complete_ids(&g, &f, "", true), vec!["FS-alpha.1".to_string(), "FS-alpha.2".to_string()]);
    assert!(complete_ids(&g, &f, "ZZ", false).is_empty());
}

#[test]
fn refs_summary_lists_each_file_once_in_path_order() {
    let c = config();
    let g = Grammar::new(&c).unwrap();
    let f = scan(
        &c,
        &g,
        &vec![
            file("/repo/src/z.rs", "// §FS-alpha\n// §FS-alpha.1\n"),
            file("/repo/docs/FS-alpha.md", "# FS-alpha: Alpha\n\n## 1. One\n\nSee §FS-alpha.1 and §FS-alpha.1 again.\n"),
        ],
        &vec![],
    )
    .unwrap();
    let (summary, note) = refs_output_exec(&c, &g, &f, &id("FS", "alpha"), &None, true, false);
    assert_eq!(summary, vec!["docs/FS-alpha.md: 2 (line 5)".to_string(), "src/z.rs: 2 (lines 1, 2)".to_string()]);
    assert!(note.is_none());
}

#[test]
fn id_proposals_take_the_next_number_and_a_slug() {
    use_proposals();
}

fn use_proposals() {
    let mut c = config();
    c.id_format = "{kind}-{number}-{slug}".to_string();
    let g = Grammar::new(&c).unwrap();
    let f = scan(
        &c,
        &g,
        &vec![
            file("/repo/docs/a.md", "# FS-001-login: Login\n"),
            file("/repo/docs/b.md", "# FS-007-logout: Logout\n# AR-009-core: Core\n"),
        ],
        &vec![],
    )
    .unwrap();
    match propose_id(&c, &g, &f, "FS", "User Sign-up, v2!") {
        IdOutcome::Proposed(p) => {
            assert_eq!(p.id, "FS-008-user-sign-up-v2");
            assert_eq!(p.number, Some(8));
            assert_eq!(p.slug, "user-sign-up-v2");
        }
        _ => panic!("expected a proposal"),
    }
    match propose_id(&c, &g, &f, "XX", "t") {
        IdOutcome::UnknownKind { known } => assert_eq!(known, vec!["FS".to_string(), "AR".to_string(), "E2E".to_string()]),
        _ => panic!("expected an unknown kind"),
    }
    match propose_id(&c, &g, &f, "FS", "!!!") {
        IdOutcome::Rejected(m) => assert_eq!(m, "cannot make a slug from the title `!!!`: it has no ASCII letter or digit"),
        _ => panic!("expected a refusal"),
    }
    let c2 = config();
    let g2 = Grammar::new(&c2).unwrap();
    let f2 = scan(&c2, &g2, &vec![file("/repo/docs/a.md", "# FS-login: Login\n")], &vec![]).unwrap();
    match propose_id(&c2, &g2, &f2, "FS", "Login") {
        IdOutcome::Rejected(m) => assert_eq!(m, "FS-login is already declared"),
        _ => panic!("expected a refusal"),
    }
}
