use grund::init_plan::{init_plan, InitState, InitVerb, ScaffoldFile};

const BLOCK: &str = "## Grounding with grund (v1)\nCite with §.\n";

fn state(agents: Option<&str>, config_exists: bool, force: bool) -> InitState {
    InitState {
        agents_rel: "AGENTS.md".to_string(),
        agents_text: agents.map(|s| s.to_string()),
        agents_contents: format!("# Demo — agent instructions\n\n{BLOCK}"),
        block: BLOCK.to_string(),
        companions: vec![("AGENTS.override.md".to_string(), None)],
        config_rel: ".agents/grund.toml".to_string(),
        config_exists,
        config_contents: "project_name = \"Demo\"\n".to_string(),
        docs: vec![ScaffoldFile { rel: "docs/grund.md".to_string(), exists: false, contents: "# GND-demo: Demo\n".to_string() }],
        force,
    }
}

#[test]
fn fresh_tree_writes_everything() {
    let acts = init_plan(&state(None, false, false)).unwrap();
    let verbs: Vec<_> = acts.iter().map(|a| (a.verb, a.rel.clone())).collect();
    assert_eq!(
        verbs,
        vec![
            (InitVerb::Wrote, "AGENTS.md".to_string()),
            (InitVerb::Wrote, "AGENTS.override.md".to_string()),
            (InitVerb::Wrote, ".agents/grund.toml".to_string()),
            (InitVerb::Wrote, "docs/grund.md".to_string()),
        ]
    );
    assert_eq!(acts[1].write.as_deref(), Some(BLOCK));
}

#[test]
fn force_never_overwrites_an_existing_config() {
    let acts = init_plan(&state(Some("# Old\n"), true, true)).unwrap();
    assert_eq!(acts[0].verb, InitVerb::Wrote);
    assert_eq!(acts[2].verb, InitVerb::Exists);
    assert_eq!(acts[2].write, None);
}

#[test]
fn rerun_on_a_settled_tree_writes_nothing() {
    let first = init_plan(&state(Some("# Project\n"), false, false)).unwrap();
    assert_eq!(first[0].verb, InitVerb::Appended);
    let written = first[0].write.clone().unwrap();
    let mut again = state(Some(&written), true, false);
    again.companions = vec![("AGENTS.override.md".to_string(), first[1].write.clone())];
    again.docs[0].exists = true;
    let second = init_plan(&again).unwrap();
    assert!(second.iter().all(|a| a.verb == InitVerb::Exists && a.write.is_none()));
    let fresh = state(None, false, false);
    let mut after_fresh = state(Some(&fresh.agents_contents), true, false);
    after_fresh.companions = vec![("AGENTS.override.md".to_string(), Some(BLOCK.to_string()))];
    after_fresh.docs[0].exists = true;
    assert!(init_plan(&after_fresh).unwrap().iter().all(|a| a.write.is_none()));
}

#[test]
fn newer_block_is_an_error() {
    let err = init_plan(&state(Some("## Grounding with grund (v9)\n"), false, false)).err().unwrap();
    assert_eq!(err, "update AGENTS.md: AGENTS.md contains newer grund init block v9; this binary supports v1");
}
