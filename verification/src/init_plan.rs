//! What `grund init` does to each file it owns, decided from what is on disk:
//! the canonical `AGENTS.md` (written fresh, or its managed block appended or
//! updated), the companion entrypoints (their block updated, or the block written
//! where a companion is expected but missing), `.agents/grund.toml` (written only
//! when absent — never overwritten, not even with `--force`), and with `--docs`
//! the scaffold files (kept when present, unless `--force`).
use vstd::prelude::*;
use crate::agents::{self, AgentsUpdateResult};
use crate::model;
use crate::text;

verus! {

/// What happened to one file, as `init` reports it.
#[derive(Clone, Copy, PartialEq, Eq, Structural, Debug)]
pub enum InitVerb {
    Wrote,
    Appended,
    Updated,
    Exists,
}

/// One file's outcome: its verb, its path relative to the target, and the text to
/// write (none when the file is left as it is).
pub struct InitAction {
    pub verb: InitVerb,
    pub rel: String,
    pub write: Option<String>,
}

pub ghost struct InitActionV {
    pub verb: InitVerb,
    pub rel: Seq<char>,
    pub write: Option<Seq<char>>,
}

impl View for InitAction {
    type V = InitActionV;

    open spec fn view(&self) -> InitActionV {
        InitActionV { verb: self.verb, rel: self.rel@, write: model::opt_view(self.write) }
    }
}

pub open spec fn action_views(v: Seq<InitAction>) -> Seq<InitActionV> {
    Seq::new(v.len(), |i: int| v[i]@)
}

/// A scaffold file `init --docs` may write.
pub struct ScaffoldFile {
    pub rel: String,
    pub exists: bool,
    pub contents: String,
}

/// What `init` found and what it would write.
pub struct InitState {
    /// The canonical entrypoint's path and its text when it exists.
    pub agents_rel: String,
    pub agents_text: Option<String>,
    /// A fresh canonical entrypoint and the managed block.
    pub agents_contents: String,
    pub block: String,
    /// Companion entrypoints: their text when present, none where one is expected
    /// but missing.
    pub companions: Vec<(String, Option<String>)>,
    pub config_rel: String,
    pub config_exists: bool,
    pub config_contents: String,
    pub docs: Vec<ScaffoldFile>,
    pub force: bool,
}

pub open spec fn verb_of(r: AgentsUpdateResult) -> InitVerb {
    match r {
        AgentsUpdateResult::Appended => InitVerb::Appended,
        AgentsUpdateResult::Updated => InitVerb::Updated,
        AgentsUpdateResult::Unchanged => InitVerb::Exists,
    }
}

pub open spec fn update_error(rel: Seq<char>, e: Seq<char>) -> Seq<char> {
    "update "@ + rel + ": "@ + e
}

/// Updating an existing entrypoint's block.
pub open spec fn update_action(rel: Seq<char>, text: Seq<char>, block: Seq<char>) -> Result<InitActionV, Seq<char>> {
    match agents::agents_update(text, block, rel) {
        Err(e) => Err(update_error(rel, e)),
        Ok((u, r)) => Ok(
            InitActionV {
                verb: verb_of(r),
                rel,
                write: if r == AgentsUpdateResult::Unchanged {
                    None
                } else {
                    Some(u)
                },
            },
        ),
    }
}

/// The canonical entrypoint: updated in place when it exists (unless `--force`),
/// else written fresh.
pub open spec fn agents_action(s: InitState) -> Result<InitActionV, Seq<char>> {
    match s.agents_text {
        Some(t) if !s.force => update_action(s.agents_rel@, t@, s.block@),
        _ => Ok(InitActionV { verb: InitVerb::Wrote, rel: s.agents_rel@, write: Some(s.agents_contents@) }),
    }
}

pub open spec fn companion_action(c: (String, Option<String>), block: Seq<char>) -> Result<InitActionV, Seq<char>> {
    match c.1 {
        Some(t) => update_action(c.0@, t@, block),
        None => Ok(InitActionV { verb: InitVerb::Wrote, rel: c.0@, write: Some(block) }),
    }
}

/// The companions' actions, in order, or the first error.
pub open spec fn companion_actions(cs: Seq<(String, Option<String>)>, block: Seq<char>, k: int) -> Result<Seq<InitActionV>, Seq<char>>
    decreases k,
{
    if k <= 0 || k > cs.len() {
        Ok(Seq::empty())
    } else {
        match companion_actions(cs, block, k - 1) {
            Err(e) => Err(e),
            Ok(prev) => match companion_action(cs[k - 1], block) {
                Err(e) => Err(e),
                Ok(a) => Ok(prev.push(a)),
            },
        }
    }
}

/// The configuration: kept when it exists, whatever `--force` says.
pub open spec fn config_action(s: InitState) -> InitActionV {
    if s.config_exists {
        InitActionV { verb: InitVerb::Exists, rel: s.config_rel@, write: None }
    } else {
        InitActionV { verb: InitVerb::Wrote, rel: s.config_rel@, write: Some(s.config_contents@) }
    }
}

pub open spec fn doc_action(d: ScaffoldFile, force: bool) -> InitActionV {
    if d.exists && !force {
        InitActionV { verb: InitVerb::Exists, rel: d.rel@, write: None }
    } else {
        InitActionV { verb: InitVerb::Wrote, rel: d.rel@, write: Some(d.contents@) }
    }
}

/// Everything `init` does, in order: the canonical entrypoint, the companions,
/// the configuration, the scaffold files; or the first error.
pub open spec fn init_actions(s: InitState) -> Result<Seq<InitActionV>, Seq<char>> {
    match agents_action(s) {
        Err(e) => Err(e),
        Ok(a) => match companion_actions(s.companions@, s.block@, s.companions@.len() as int) {
            Err(e) => Err(e),
            Ok(cs) => Ok(
                seq![a] + cs + seq![config_action(s)] + Seq::new(s.docs@.len(), |i: int| doc_action(s.docs@[i], s.force)),
            ),
        },
    }
}

fn update_action_exec(rel: &String, text: &String, block: &String) -> (r: Result<InitAction, String>)
    ensures
        match (r, update_action(rel@, text@, block@)) {
            (Ok(a), Ok(v)) => a@ == v,
            (Err(m), Err(e)) => m@ == e,
            _ => false,
        },
{
    match agents::update_agents_text(text.as_str(), block.as_str(), rel.as_str()) {
        Err(e) => {
            let mut m = String::from_str("update ");
            m.append(rel.as_str());
            m.append(": ");
            m.append(e.as_str());
            Err(m)
        },
        Ok((u, r)) => {
            let verb = match r {
                AgentsUpdateResult::Appended => InitVerb::Appended,
                AgentsUpdateResult::Updated => InitVerb::Updated,
                AgentsUpdateResult::Unchanged => InitVerb::Exists,
            };
            let write = match r {
                AgentsUpdateResult::Unchanged => None,
                _ => Some(u),
            };
            Ok(InitAction { verb, rel: rel.clone(), write })
        },
    }
}

/// What `init` does, as `init_actions` defines it.
pub fn init_plan(s: &InitState) -> (r: Result<Vec<InitAction>, String>)
    ensures
        match (r, init_actions(*s)) {
            (Ok(v), Ok(w)) => action_views(v@) == w,
            (Err(m), Err(e)) => m@ == e,
            _ => false,
        },
{
    let mut out: Vec<InitAction> = Vec::new();
    let first = match &s.agents_text {
        Some(t) if !s.force => match update_action_exec(&s.agents_rel, t, &s.block) {
            Ok(a) => a,
            Err(m) => {
                return Err(m);
            },
        },
        _ => InitAction { verb: InitVerb::Wrote, rel: s.agents_rel.clone(), write: Some(s.agents_contents.clone()) },
    };
    assert(first@ == agents_action(*s)->Ok_0);
    out.push(first);
    let ghost head = action_views(out@);
    assert(head =~= seq![agents_action(*s)->Ok_0]);
    let ghost cs = s.companions@;
    let mut k: usize = 0;
    while k < s.companions.len()
        invariant
            k <= cs.len(),
            cs == s.companions@,
            agents_action(*s) is Ok,
            head == seq![agents_action(*s)->Ok_0],
            companion_actions(cs, s.block@, k as int) is Ok,
            action_views(out@) =~= head + companion_actions(cs, s.block@, k as int)->Ok_0,
            head.len() == 1,
            forall|j: int| 0 <= j < k ==> #[trigger] companion_action(cs[j], s.block@) is Ok,
        decreases cs.len() - k,
    {
        let (rel, text) = &s.companions[k];
        assert(cs[k as int] == s.companions@[k as int]);
        let a = match text {
            Some(t) => match update_action_exec(rel, t, &s.block) {
                Ok(a) => a,
                Err(m) => {
                    proof {
                        lemma_companion_error(cs, s.block@, k as int);
                    }
                    assert(init_actions(*s) == Err::<Seq<InitActionV>, Seq<char>>(m@));
                    return Err(m);
                },
            },
            None => InitAction { verb: InitVerb::Wrote, rel: rel.clone(), write: Some(s.block.clone()) },
        };
        let ghost before = action_views(out@);
        assert(a@ == companion_action(cs[k as int], s.block@)->Ok_0);
        out.push(a);
        assert(action_views(out@) =~= before.push(a@));
        k = k + 1;
    }
    let cfg = if s.config_exists {
        InitAction { verb: InitVerb::Exists, rel: s.config_rel.clone(), write: None }
    } else {
        InitAction { verb: InitVerb::Wrote, rel: s.config_rel.clone(), write: Some(s.config_contents.clone()) }
    };
    let ghost before = action_views(out@);
    out.push(cfg);
    assert(action_views(out@) =~= before.push(config_action(*s)));
    let ghost mid = action_views(out@);
    let mut i: usize = 0;
    while i < s.docs.len()
        invariant
            i <= s.docs@.len(),
            agents_action(*s) is Ok,
            companion_actions(cs, s.block@, cs.len() as int) is Ok,
            cs == s.companions@,
            mid == seq![agents_action(*s)->Ok_0] + companion_actions(cs, s.block@, cs.len() as int)->Ok_0 + seq![config_action(*s)],
            action_views(out@) =~= mid + Seq::new(i as nat, |j: int| doc_action(s.docs@[j], s.force)),
        decreases s.docs@.len() - i,
    {
        let d = &s.docs[i];
        let a = if d.exists && !s.force {
            InitAction { verb: InitVerb::Exists, rel: d.rel.clone(), write: None }
        } else {
            InitAction { verb: InitVerb::Wrote, rel: d.rel.clone(), write: Some(d.contents.clone()) }
        };
        let ghost before = action_views(out@);
        out.push(a);
        assert(action_views(out@) =~= before.push(doc_action(s.docs@[i as int], s.force)));
        i = i + 1;
    }
    assert(action_views(out@) =~= init_actions(*s)->Ok_0);
    Ok(out)
}

proof fn lemma_companion_error(cs: Seq<(String, Option<String>)>, block: Seq<char>, k: int)
    requires
        0 <= k < cs.len(),
        companion_actions(cs, block, k) is Ok,
        companion_action(cs[k], block) is Err,
    ensures
        companion_actions(cs, block, cs.len() as int) == Err::<Seq<InitActionV>, Seq<char>>(companion_action(cs[k], block)->Err_0),
    decreases cs.len() - k,
{
    lemma_companion_error_from(cs, block, k, cs.len() as int);
}

proof fn lemma_companion_error_from(cs: Seq<(String, Option<String>)>, block: Seq<char>, k: int, m: int)
    requires
        0 <= k < m <= cs.len(),
        companion_actions(cs, block, k) is Ok,
        companion_action(cs[k], block) is Err,
    ensures
        companion_actions(cs, block, m) == Err::<Seq<InitActionV>, Seq<char>>(companion_action(cs[k], block)->Err_0),
    decreases m - k,
{
    if m > k + 1 {
        lemma_companion_error_from(cs, block, k, m - 1);
    }
}

// ---------------------------------------------------------------- laws

proof fn lemma_companion_actions_ok(cs: Seq<(String, Option<String>)>, block: Seq<char>, k: int)
    requires
        0 <= k <= cs.len(),
        companion_actions(cs, block, k) is Ok,
    ensures
        companion_actions(cs, block, k)->Ok_0.len() == k,
        forall|j: int| 0 <= j < k ==> (#[trigger] companion_action(cs[j], block)) is Ok,
        forall|j: int| 0 <= j < k ==> #[trigger] companion_actions(cs, block, k)->Ok_0[j] == companion_action(cs[j], block)->Ok_0,
    decreases k,
{
    if k > 0 {
        lemma_companion_actions_ok(cs, block, k - 1);
        let prev = companion_actions(cs, block, k - 1)->Ok_0;
        let cur = companion_actions(cs, block, k)->Ok_0;
        assert(companion_action(cs[k - 1], block) is Ok);
        assert(cur == prev.push(companion_action(cs[k - 1], block)->Ok_0));
        assert forall|j: int| 0 <= j < k implies (#[trigger] companion_action(cs[j], block)) is Ok && companion_actions(cs, block, k)->Ok_0[j]
            == companion_action(cs[j], block)->Ok_0 by {
            if j < k - 1 {
                assert(cur[j] == prev[j]);
            } else {
                assert(j == k - 1);
                assert(cur[j] == companion_action(cs[k - 1], block)->Ok_0);
            }
        }
    }
}

/// `init` never overwrites an existing configuration, with or without `--force`:
/// when `.agents/grund.toml` exists, its action keeps it as it is.
pub proof fn lemma_config_kept(s: InitState)
    requires
        s.config_exists,
        init_actions(s) is Ok,
    ensures
        init_actions(s) matches Ok(acts) && acts[1 + s.companions@.len() as int] == (InitActionV {
            verb: InitVerb::Exists,
            rel: s.config_rel@,
            write: None,
        }),
{
    lemma_companion_actions_ok(s.companions@, s.block@, s.companions@.len() as int);
}

/// An entrypoint text that an update leaves exactly as it is.
pub open spec fn settled_text(rel: Seq<char>, t: Seq<char>, block: Seq<char>) -> bool {
    agents::agents_update(t, block, rel) == Ok::<(Seq<char>, AgentsUpdateResult), Seq<char>>((t, AgentsUpdateResult::Unchanged))
}

/// A companion entrypoint that is present and settled.
pub open spec fn settled_entry(c: (String, Option<String>), block: Seq<char>) -> bool {
    c.1 matches Some(t) && settled_text(c.0@, t@, block)
}

/// A tree a previous `init` left in place: every entrypoint holds a settled text,
/// the configuration and the scaffold files exist, and `--force` is not given.
pub open spec fn settled(s: InitState) -> bool {
    &&& !s.force
    &&& s.config_exists
    &&& forall|i: int| 0 <= i < s.docs@.len() ==> (#[trigger] s.docs@[i]).exists
    &&& s.agents_text matches Some(t) && settled_text(s.agents_rel@, t@, s.block@)
    &&& forall|i: int|
        0 <= i < s.companions@.len() ==> settled_entry(#[trigger] s.companions@[i], s.block@)
}

/// Re-running `init` on a tree it already set up writes nothing: every file is
/// reported as `exists` and none is written.
pub proof fn lemma_settled_writes_nothing(s: InitState)
    requires
        settled(s),
    ensures
        init_actions(s) matches Ok(acts) && forall|i: int|
            0 <= i < acts.len() ==> (#[trigger] acts[i]).write is None && acts[i].verb == InitVerb::Exists,
{
    let cs = s.companions@;
    assert forall|k: int| 0 <= k <= cs.len() implies companion_actions(cs, s.block@, k) is Ok && companion_actions(cs, s.block@, k)->Ok_0.len() == k && (forall|j: int|
        0 <= j < k ==> (#[trigger] companion_actions(cs, s.block@, k)->Ok_0[j]).write is None
            && companion_actions(cs, s.block@, k)->Ok_0[j].verb == InitVerb::Exists) by {
        lemma_settled_companions(s, k);
    }
    let acts = init_actions(s)->Ok_0;
    let n = cs.len() as int;
    assert forall|i: int| 0 <= i < acts.len() implies (#[trigger] acts[i]).write is None && acts[i].verb == InitVerb::Exists by {
        if i == 0 {
        } else if i <= n {
            assert(acts[i] == companion_actions(cs, s.block@, n)->Ok_0[i - 1]);
        } else if i == n + 1 {
        } else {
            assert(s.docs@[i - n - 2].exists);
        }
    }
}

proof fn lemma_settled_companions(s: InitState, k: int)
    requires
        settled(s),
        0 <= k <= s.companions@.len(),
    ensures
        companion_actions(s.companions@, s.block@, k) is Ok,
        companion_actions(s.companions@, s.block@, k)->Ok_0.len() == k,
        forall|j: int|
            0 <= j < k ==> (#[trigger] companion_actions(s.companions@, s.block@, k)->Ok_0[j]).write is None
                && companion_actions(s.companions@, s.block@, k)->Ok_0[j].verb == InitVerb::Exists,
    decreases k,
{
    if k > 0 {
        lemma_settled_companions(s, k - 1);
        let c = s.companions@[k - 1];
        assert(c.1 is Some);
    }
}

/// The head a fresh canonical entrypoint opens with, before its block.
pub open spec fn fresh_head(name: Seq<char>) -> Seq<char> {
    "# "@ + name + " \u{2014} agent instructions\n"@
}

/// A fresh `AGENTS.md` is settled: a second `init` finds its block and leaves it
/// as it is — given a well-formed block and a project name that holds no block
/// heading of its own.
pub proof fn lemma_fresh_agents_settled(template: Seq<char>, name: Seq<char>, c: model::Config, rel: Seq<char>)
    requires
        agents::well_formed_block(crate::scaffold::render_agents_append_block(template, name, c)),
        agents::first_heading_from(fresh_head(name), 0) is None,
    ensures
        settled_text(rel, crate::scaffold::render_agents_md(template, name, c), crate::scaffold::render_agents_append_block(template, name, c)),
{
    let block = crate::scaffold::render_agents_append_block(template, name, c);
    let e = fresh_head(name);
    reveal_strlit(" \u{2014} agent instructions\n");
    reveal_strlit(" \u{2014} agent instructions\n\n");
    reveal_strlit("\n\n");
    reveal_strlit("\n");
    reveal_strlit("# ");
    let tail = " \u{2014} agent instructions\n"@;
    assert(e.len() >= 2 && e[e.len() - 1] == '\n' && e[e.len() - 2] == 's');
    assert(!text::ends_with(e, "\n\n"@)) by {
        if text::ends_with(e, "\n\n"@) {
            assert(e.subrange(e.len() - 2, e.len() as int)[0] == e[e.len() - 2]);
        }
    }
    assert(text::ends_with(e, "\n"@)) by {
        assert(e.subrange(e.len() - 1, e.len() as int) =~= "\n"@);
    }
    assert(agents::append_separator(e) == "\n"@);
    assert(crate::scaffold::render_agents_md(template, name, c) =~= e + agents::append_separator(e) + block);
    agents::lemma_reupdate_appended(e, block, rel);
}


/// The text an entrypoint holds after an action: what the action writes, else what
/// it held.
pub open spec fn text_after(old: Option<String>, a: InitActionV) -> Seq<char> {
    match a.write {
        Some(t) => t,
        None => match old {
            Some(t) => t@,
            None => Seq::empty(),
        },
    }
}

/// An entrypoint text an update can settle: it holds a block, or no block heading
/// at all.
pub open spec fn updatable(t: Seq<char>) -> bool {
    agents::find_agents_block(t) is None ==> agents::first_heading_from(t, 0) is None
}

/// What one entrypoint action leaves is settled, given a well-formed block.
proof fn lemma_update_settles(rel: Seq<char>, t: Seq<char>, block: Seq<char>)
    requires
        agents::well_formed_block(block),
        updatable(t),
        update_action(rel, t, block) is Ok,
    ensures
        ({
            let a = update_action(rel, t, block)->Ok_0;
            settled_text(rel, match a.write { Some(w) => w, None => t }, block)
        }),
{
    agents::lemma_update_idempotent(t, block, rel);
}

/// A missing companion gets the bare block, which an update leaves as it is.
proof fn lemma_block_settled(rel: Seq<char>, block: Seq<char>)
    requires
        agents::well_formed_block(block),
    ensures
        settled_text(rel, block, block),
{
    let e = Seq::<char>::empty();
    assert(agents::first_heading_from(e, 1) is None);
    assert(agents::heading_at(e, 0) is None);
    assert(agents::first_heading_from(e, 0) is None);
    agents::lemma_reupdate_appended(e, block, rel);
    assert(Seq::<char>::empty() + agents::append_separator(Seq::empty()) + block =~= block);
}

/// After a first `init` that succeeds, every entrypoint it owns holds a settled
/// text, so a second `init` leaves them as they are (see
/// `lemma_settled_writes_nothing`) — given a well-formed block, a fresh canonical
/// text that is itself settled (`lemma_fresh_agents_settled`), and existing texts
/// that hold a block or no block heading.
pub proof fn lemma_first_init_settles(s: InitState)
    requires
        agents::well_formed_block(s.block@),
        settled_text(s.agents_rel@, s.agents_contents@, s.block@),
        s.agents_text matches Some(t) ==> updatable(t@),
        forall|k: int| 0 <= k < s.companions@.len() ==> ((#[trigger] s.companions@[k]).1 matches Some(t) ==> updatable(t@)),
        init_actions(s) is Ok,
    ensures
        init_actions(s) matches Ok(acts) && ({
            &&& settled_text(s.agents_rel@, text_after(s.agents_text, acts[0]), s.block@)
            &&& forall|k: int|
                0 <= k < s.companions@.len() ==> settled_text(
                    s.companions@[k].0@,
                    text_after(s.companions@[k].1, #[trigger] acts[k + 1]),
                    s.block@,
                )
        }),
{
    let cs = s.companions@;
    let block = s.block@;
    lemma_companion_actions_ok(cs, block, cs.len() as int);
    let acts = init_actions(s)->Ok_0;
    match s.agents_text {
        Some(t) => if !s.force {
            lemma_update_settles(s.agents_rel@, t@, block);
        },
        None => {},
    }
    assert forall|k: int| 0 <= k < cs.len() implies settled_text(
        cs[k].0@,
        text_after(cs[k].1, #[trigger] acts[k + 1]),
        block,
    ) by {
        assert(acts[k + 1] == companion_actions(cs, block, cs.len() as int)->Ok_0[k]);
        assert(acts[k + 1] == companion_action(cs[k], block)->Ok_0);
        match cs[k].1 {
            Some(t) => lemma_update_settles(cs[k].0@, t@, block),
            None => lemma_block_settled(cs[k].0@, block),
        }
    }
}

} // verus!
