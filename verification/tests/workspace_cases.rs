use grund::api::scan;
use grund::cases::{parse_i32_exec, read_e2e_case, split_words, IntError};
use grund::checker::{AgentEntry, StubProbe};
use grund::grammar::Grammar;
use grund::model::{Config, Findings, InlineCitationSite, KindConfig};
use grund::tree::SourceFile;
use grund::workspace::{check_workspace, derive_alias, expand_workspace_members, MemberProbe, RootMode, WorkspaceProject};
fn kind(p: &str) -> KindConfig {
    KindConfig { prefix: p.to_string(), folder: None, file: None, title: None }
}

fn config() -> Config {
    Config {
        root: "/repo".to_string(),
        project_name: None,
        marker: "§".to_string(),
        trigger: "$$".to_string(),
        strict: false,
        require_grounding: false,
        id_format: "{kind}-{slug}".to_string(),
        section_separator: ".".to_string(),
        slug_pattern: "[a-z0-9][a-z0-9-]*".to_string(),
        kinds: vec![kind("FS"), kind("AR"), kind("E2E")],
        extensions: vec!["md".to_string(), "rs".to_string()],
        comment_prefixes: vec!["///".to_string(), "//!".to_string(), "//".to_string(), "#".to_string()],
        docstring_python: true,
        cross_ref_anchor_format: "github".to_string(),
        scan_roots: None,
        exclude: vec![],
        output_format: "text".to_string(),
        inline_style: "note".to_string(),
        inline_note_suggested_lines: 3,
        inline_note_max_lines: 8,
        inline_note_max_columns: 100,
        warn_on_suggested: false,
        section_heading_levels: "any".to_string(),
        number_pattern: "[0-9]{3}".to_string(),
        respect_gitignore: true,
        relative_paths: true,
        fmt_cross_refs_enabled: false,
        workspace_declared: false,
        workspace_members: vec![],
        workspace_include_root: true,
    }
}

fn file(path: &str, text: &str) -> SourceFile {
    SourceFile { path: path.to_string(), content: Ok(text.to_string()) }
}

fn words(s: &str) -> Vec<String> {
    let v: Vec<char> = s.chars().collect();
    split_words(&v).into_iter().map(|w| w.into_iter().collect()).collect()
}

fn parse(s: &str) -> Result<i32, IntError> {
    let v: Vec<char> = s.chars().collect();
    parse_i32_exec(&v)
}

#[test]
fn e2e_manifest_words_and_exit_status() {
    assert_eq!(words("  check --format\tjson \n"), vec!["check", "--format", "json"]);
    assert!(words(" \n ").is_empty());
    assert_eq!(parse("0"), Ok(0));
    assert_eq!(parse("-2147483648"), Ok(i32::MIN));
    assert_eq!(parse("+17"), Ok(17));
    assert_eq!(parse("2147483648"), Err(IntError::PosOverflow));
    assert_eq!(parse("-2147483649"), Err(IntError::NegOverflow));
    assert_eq!(parse(""), Err(IntError::Empty));
    assert_eq!(parse("-"), Err(IntError::InvalidDigit));
    assert_eq!(parse("1x"), Err(IntError::InvalidDigit));
    let case = read_e2e_case("/r/e2e/cases/a", Some("check --strict\n"), " 1\n", &vec!["z.md".to_string(), "a/b.rs".to_string()]).unwrap();
    assert_eq!(case.args, vec!["check".to_string(), "--strict".to_string()]);
    assert_eq!(case.expected_exit, 1);
    assert_eq!(case.fixtures, vec!["a/b.rs".to_string(), "z.md".to_string()]);
    let dflt = read_e2e_case("/r/e2e/cases/a", None, "0", &vec![]).unwrap();
    assert_eq!(dflt.args, vec!["check".to_string()]);
    assert_eq!(
        read_e2e_case("/r/e2e/cases/a", None, "two", &vec![]).err().unwrap(),
        "parse /r/e2e/cases/a/expected.exit: invalid digit found in string"
    );
}

#[test]
fn workspace_aliases() {
    assert_eq!(derive_alias(&Some("core".to_string()), &None, RootMode::Member), Ok("core".to_string()));
    assert_eq!(derive_alias(&None, &None, RootMode::Root), Ok("root".to_string()));
    assert_eq!(derive_alias(&None, &Some("/w/crates/my-lib".to_string()), RootMode::Member), Ok("my-lib".to_string()));
    assert_eq!(
        derive_alias(&None, &Some("/w/crates/MyLib".to_string()), RootMode::Member),
        Err("invalid workspace project alias `MyLib` (expected [a-z][a-z0-9-]*)".to_string())
    );
}

#[test]
fn workspace_members_sorted_once_or_first_missing() {
    let probes = vec![
        MemberProbe { member: "crates/*".to_string(), is_dir: true, roots: vec!["/w/crates/b".to_string(), "/w/crates/a".to_string()] },
        MemberProbe { member: "tools".to_string(), is_dir: true, roots: vec!["/w/crates/a".to_string()] },
    ];
    assert_eq!(expand_workspace_members("/w", &probes).unwrap(), vec!["/w/crates/a".to_string(), "/w/crates/b".to_string()]);
    let missing = vec![
        MemberProbe { member: "gone/*".to_string(), is_dir: false, roots: vec![] },
        MemberProbe { member: "also".to_string(), is_dir: false, roots: vec![] },
    ];
    assert_eq!(expand_workspace_members("/w", &missing).err().unwrap(), "workspace member glob parent does not exist: gone");
    let missing2 = vec![MemberProbe { member: "also".to_string(), is_dir: false, roots: vec![] }];
    assert_eq!(expand_workspace_members("/w", &missing2).err().unwrap(), "workspace member does not exist: also");
}

fn project(alias: &str, root: &str, files: Vec<SourceFile>) -> WorkspaceProject {
    let mut c = config();
    c.root = root.to_string();
    let g = Grammar::new(&c).unwrap();
    let f: Findings = scan(&c, &g, &files, &vec![]).unwrap();
    WorkspaceProject {
        alias: alias.to_string(),
        member: true,
        config: c,
        grammar: g,
        findings: f,
        scan_errors: vec![],
        probes: Vec::<StubProbe>::new(),
        agents: Vec::<AgentEntry>::new(),
    }
}

#[test]
fn workspace_check_merges_projects_in_report_order() {
    let mut root = config();
    root.root = "/w".to_string();
    let a = project("a", "/w/a", vec![file("/w/a/src/x.rs", "// §FS-missing\n")]);
    let b = project("b", "/w/b", vec![file("/w/b/docs/FS-b.md", "# FS-b: B\n")]);
    let (rep, had) = check_workspace(&root, &vec![a, b]).unwrap();
    assert!(!had);
    assert_eq!(rep.errors.len(), 1);
    assert_eq!(rep.errors[0].path.as_deref(), Some("a/src/x.rs"));
    assert_eq!(rep.errors[0].message, "unknown reference FS-missing");
    assert_eq!(rep.warnings.len(), 1);
    assert_eq!(rep.warnings[0].message, "declared but never cited: FS-b");
    let dup = vec![project("a", "/w/a", vec![]), project("a", "/w/b", vec![])];
    assert_eq!(check_workspace(&root, &dup).err().unwrap(), "duplicate workspace project alias `a`");
    let mut nested = project("n", "/w/n", vec![]);
    nested.config.workspace_declared = true;
    assert_eq!(
        check_workspace(&root, &vec![project("a", "/w/a", vec![]), nested]).err().unwrap(),
        "workspace member `n` declares its own `[workspace]` block (nested workspaces are not supported)"
    );
    let mut own_root = project("root", "/w", vec![]);
    own_root.member = false;
    own_root.config.workspace_declared = true;
    assert!(check_workspace(&root, &vec![own_root]).is_ok());
    let empty = project("e", "/w/e", vec![]);
    let (rep2, _) = check_workspace(&root, &vec![empty]).unwrap();
    assert_eq!(rep2.warnings[0].code, "empty-scan");
}

#[test]
fn citations_in_comment_blocks_carry_their_site() {
    let c = config();
    let g = Grammar::new(&c).unwrap();
    let files = vec![
        file("/repo/docs/FS-a.md", "# FS-a: A\n§FS-a in prose\n"),
        file("/repo/src/a.rs", "fn f() {}\n// Uses §FS-a for routing.\n// more words\nfn g() {}\n/* §FS-a */\nlet x = 1; // §FS-a\n"),
    ];
    let f = scan(&c, &g, &files, &vec![]).unwrap();
    let cits: Vec<_> = f.citations.iter().filter(|c| c.file == "/repo/src/a.rs").collect();
    assert_eq!(cits.len(), 3);
    assert_eq!(
        cits[0].inline_site,
        Some(InlineCitationSite { first_line: 2, last_line: 3, max_columns: 27, has_note: true })
    );
    assert_eq!(cits[1].inline_site, Some(InlineCitationSite { first_line: 5, last_line: 5, max_columns: 12, has_note: false }));
    assert_eq!(cits[2].inline_site, None);
    let md: Vec<_> = f.citations.iter().filter(|c| c.file == "/repo/docs/FS-a.md").collect();
    assert_eq!(md[0].inline_site, None);
}
