//! `grund id`: the next free ID of a kind for a new declaration titled `title`.
//!
//! The slug is the title's ASCII letters and digits, lowercased, each run of
//! other characters between them turned into one `-`. Under a format with a
//! number the number is one more than the highest number declared for the kind
//! (one when there is none), so a number is never handed out twice; without a
//! number, an ID that is already declared is refused.
use vstd::prelude::*;
use crate::checker::{self, groups_view};
use crate::grammar::{self, FormatPart, Grammar};
use crate::links;
use crate::model::{self, Config, Findings, Id};
use crate::render::IdProposal;
use crate::text::{self, chars_of, string_from_chars};
use crate::tree;

verus! {

/// The slug of a title, with whether a `-` is owed before the next kept character.
pub open spec fn slug_fold(t: Seq<char>) -> (Seq<char>, bool)
    decreases t.len(),
{
    if t.len() == 0 {
        (Seq::empty(), false)
    } else {
        let (out, pending) = slug_fold(t.drop_last());
        let c = t.last();
        if grammar::is_alnum(c) {
            (out + (if pending && out.len() > 0 { seq!['-'] } else { Seq::empty() }) + seq![links::ascii_lower(c)], false)
        } else {
            (out, true)
        }
    }
}

pub open spec fn slug_of(t: Seq<char>) -> Seq<char> {
    slug_fold(t).0
}

/// The format has a `{number}` (or `{slug}`) placeholder.
pub open spec fn has_part(g: grammar::GrammarV, p: FormatPart) -> bool {
    exists|i: int| 0 <= i < g.parts.len() && #[trigger] g.parts[i] == p
}

/// The highest number declared for `kind` among the first `k` groups (0 when none).
pub open spec fn max_number_upto(gs: Seq<(model::IdV, Seq<model::DeclarationV>)>, kind: Seq<char>, k: int) -> nat
    decreases k,
{
    if k <= 0 || k > gs.len() {
        0
    } else {
        let m = max_number_upto(gs, kind, k - 1);
        match gs[k - 1].0.num {
            Some(n) => if gs[k - 1].0.kind == kind && n > m {
                n as nat
            } else {
                m
            },
            None => m,
        }
    }
}

pub open spec fn kind_index_from(ks: Seq<model::KindConfig>, kind: Seq<char>, i: int) -> Option<int>
    decreases ks.len() - i,
{
    if i < 0 || i >= ks.len() {
        None
    } else if ks[i].prefix@ == kind {
        Some(i)
    } else {
        kind_index_from(ks, kind, i + 1)
    }
}

/// What `id` answers: a proposal, an unknown kind, or a refusal with its message.
pub enum IdOutcome {
    Proposed(IdProposal),
    UnknownKind { known: Vec<String> },
    Rejected(String),
}

pub ghost struct ProposalV {
    pub id: Seq<char>,
    pub kind: Seq<char>,
    pub number: Option<u32>,
    pub slug: Seq<char>,
    pub folder: Option<Seq<char>>,
    pub e2e_case_dir: Option<Seq<char>>,
}

pub ghost enum IdOutcomeV {
    Proposed(ProposalV),
    UnknownKind(Seq<Seq<char>>),
    Rejected(Seq<char>),
}

pub open spec fn outcome_view(o: IdOutcome) -> IdOutcomeV {
    match o {
        IdOutcome::Proposed(p) => IdOutcomeV::Proposed(
            ProposalV {
                id: p.id@,
                kind: p.kind@,
                number: p.number,
                slug: p.slug@,
                folder: model::opt_view(p.folder),
                e2e_case_dir: model::opt_view(p.e2e_case_dir),
            },
        ),
        IdOutcome::UnknownKind { known } => IdOutcomeV::UnknownKind(model::str_views(known@)),
        IdOutcome::Rejected(m) => IdOutcomeV::Rejected(m@),
    }
}

pub open spec fn no_slug_message(title: Seq<char>) -> Seq<char> {
    "cannot make a slug from the title `"@ + title + "`: it has no ASCII letter or digit"@
}

pub open spec fn taken_message(idt: Seq<char>) -> Seq<char> {
    idt + " is already declared"@
}

pub open spec fn numbers_exhausted_message(kind: Seq<char>) -> Seq<char> {
    "no number is left for kind `"@ + kind + "`"@
}

/// The outcome of `id` for `kind` and `title` over a scan's findings.
pub open spec fn propose_of(c: Config, g: grammar::GrammarV, f: Findings, kind: Seq<char>, title: Seq<char>) -> IdOutcomeV {
    let gs = groups_view(f.declarations@);
    match kind_index_from(c.kinds@, kind, 0) {
        None => IdOutcomeV::UnknownKind(model::kind_prefix_views(c.kinds@)),
        Some(ki) => {
            let slug = slug_of(title);
            let numbered = has_part(g, FormatPart::Number);
            let max = max_number_upto(gs, kind, gs.len() as int);
            if has_part(g, FormatPart::Slug) && slug.len() == 0 {
                IdOutcomeV::Rejected(no_slug_message(title))
            } else if numbered && max >= u32::MAX {
                IdOutcomeV::Rejected(numbers_exhausted_message(kind))
            } else {
                let id = model::IdV {
                    kind,
                    num: if numbered { Some((max + 1) as u32) } else { None },
                    slug: if has_part(g, FormatPart::Slug) { Some(slug) } else { None },
                };
                let idt = grammar::render_id(g, id);
                if !numbered && checker::group_index(gs, id) is Some {
                    IdOutcomeV::Rejected(taken_message(idt))
                } else {
                    IdOutcomeV::Proposed(
                        ProposalV {
                            id: idt,
                            kind,
                            number: id.num,
                            slug,
                            folder: model::opt_view(c.kinds@[ki].folder),
                            e2e_case_dir: if kind == "E2E"@ {
                                Some(tree::e2e_case_dir_name(c.id_format@, idt))
                            } else {
                                None
                            },
                        },
                    )
                }
            }
        },
    }
}

fn slug_exec(t: &[char]) -> (r: Vec<char>)
    ensures
        r@ == slug_of(t@),
{
    let mut out: Vec<char> = Vec::new();
    let mut pending = false;
    let mut i: usize = 0;
    while i < t.len()
        invariant
            i <= t@.len(),
            (out@, pending) == slug_fold(t@.subrange(0, i as int)),
        decreases t@.len() - i,
    {
        let c = t[i];
        proof {
            let p = t@.subrange(0, i + 1);
            assert(p.drop_last() =~= t@.subrange(0, i as int));
            assert(p.last() == c);
        }
        if links::is_ascii_alnum_exec(c) {
            let ghost before = out@;
            if pending && out.len() > 0 {
                out.push('-');
            }
            out.push(links::ascii_lower_exec(c));
            assert(out@ =~= before + (if pending && before.len() > 0 { seq!['-'] } else { Seq::empty() }) + seq![links::ascii_lower(c)]);
            pending = false;
        } else {
            pending = true;
        }
        i = i + 1;
    }
    assert(t@.subrange(0, t@.len() as int) =~= t@);
    out
}

fn has_part_exec(g: &Grammar, number: bool) -> (r: bool)
    ensures
        r == has_part(g@, if number { FormatPart::Number } else { FormatPart::Slug }),
{
    let ghost want = if number { FormatPart::Number } else { FormatPart::Slug };
    let mut i: usize = 0;
    while i < g.parts.len()
        invariant
            i <= g.parts@.len(),
            want == (if number { FormatPart::Number } else { FormatPart::Slug }),
            forall|m: int| 0 <= m < i ==> g.parts@[m] != want,
        decreases g.parts@.len() - i,
    {
        let hit = match g.parts[i] {
            FormatPart::Number => number,
            FormatPart::Slug => !number,
            _ => false,
        };
        if hit {
            assert(g@.parts[i as int] == want);
            return true;
        }
        i = i + 1;
    }
    false
}

/// Proposes the next free ID of `kind` for a declaration titled `title`, as
/// `propose_of` defines it.
pub fn propose_id(config: &Config, g: &Grammar, f: &Findings, kind: &str, title: &str) -> (r: IdOutcome)
    requires
        g.wf(),
    ensures
        outcome_view(r) == propose_of(*config, g@, *f, kind@, title@),
{
    let ghost gs = groups_view(f.declarations@);
    let ks = String::from_str(kind);
    let mut ki: usize = 0;
    let mut found = false;
    while ki < config.kinds.len()
        invariant_except_break
            !found,
        invariant
            ki <= config.kinds@.len(),
            ks@ == kind@,
            kind_index_from(config.kinds@, kind@, 0) == kind_index_from(config.kinds@, kind@, ki as int),
        ensures
            found ==> kind_index_from(config.kinds@, kind@, 0) == Some(ki as int) && ki < config.kinds@.len(),
            !found ==> kind_index_from(config.kinds@, kind@, 0) is None,
        decreases config.kinds@.len() - ki,
    {
        if model::string_eq(&config.kinds[ki].prefix, &ks) {
            found = true;
            break;
        }
        ki = ki + 1;
    }
    if !found {
        let mut known: Vec<String> = Vec::new();
        let mut j: usize = 0;
        while j < config.kinds.len()
            invariant
                j <= config.kinds@.len(),
                model::str_views(known@) =~= model::kind_prefix_views(config.kinds@).subrange(0, j as int),
            decreases config.kinds@.len() - j,
        {
            let ghost before = known@;
            known.push(config.kinds[j].prefix.clone());
            assert(model::str_views(known@) =~= model::str_views(before).push(config.kinds@[j as int].prefix@));
            j = j + 1;
        }
        assert(model::kind_prefix_views(config.kinds@).subrange(0, config.kinds@.len() as int) =~= model::kind_prefix_views(config.kinds@));
        return IdOutcome::UnknownKind { known };
    }
    let tv = chars_of(title);
    let slug = slug_exec(tv.as_slice());
    let numbered = has_part_exec(g, true);
    let slugged = has_part_exec(g, false);
    let mut max: u32 = 0;
    let mut k: usize = 0;
    while k < f.declarations.len()
        invariant
            k <= f.declarations@.len(),
            gs == groups_view(f.declarations@),
            ks@ == kind@,
            max as nat == max_number_upto(gs, kind@, k as int),
        decreases f.declarations@.len() - k,
    {
        assert(gs[k as int].0 == f.declarations@[k as int].id@);
        match f.declarations[k].id.num {
            Some(n) => {
                if model::string_eq(&f.declarations[k].id.kind, &ks) && n > max {
                    max = n;
                }
            },
            None => {},
        }
        k = k + 1;
    }
    if slugged && slug.len() == 0 {
        let mut m = String::from_str("cannot make a slug from the title `");
        m.append(title);
        m.append("`: it has no ASCII letter or digit");
        return IdOutcome::Rejected(m);
    }
    if numbered && max == u32::MAX {
        let mut m = String::from_str("no number is left for kind `");
        m.append(kind);
        m.append("`");
        return IdOutcome::Rejected(m);
    }
    let slug_s = string_from_chars(slug.as_slice());
    let id = Id {
        kind: String::from_str(kind),
        num: if numbered { Some(max + 1) } else { None },
        slug: if slugged { Some(slug_s.clone()) } else { None },
    };
    let idt = string_from_chars(g.render_id(&id).as_slice());
    if !numbered {
        match checker::find_group(f, &id) {
            Some(_) => {
                let mut m = idt.clone();
                m.append(" is already declared");
                return IdOutcome::Rejected(m);
            },
            None => {},
        }
    }
    let folder = model::copy_opt_string(&config.kinds[ki].folder);
    let e2e = String::from_str("E2E");
    let case_dir = if ks.eq(&e2e) {
        Some(tree::e2e_case_dir_name_exec(config, idt.as_str()))
    } else {
        None
    };
    proof {
        reveal_strlit("E2E");
    }
    IdOutcome::Proposed(IdProposal { id: idt, kind: ks, number: id.num, slug: slug_s, folder, e2e_case_dir: case_dir })
}


proof fn lemma_kind_index_from(ks: Seq<model::KindConfig>, kind: Seq<char>, i: int)
    requires
        0 <= i,
    ensures
        kind_index_from(ks, kind, i) matches Some(k) ==> i <= k < ks.len() && ks[k].prefix@ == kind && forall|j: int|
            i <= j < k ==> (#[trigger] ks[j]).prefix@ != kind,
        kind_index_from(ks, kind, i) is None ==> forall|j: int| i <= j < ks.len() ==> (#[trigger] ks[j]).prefix@ != kind,
    decreases ks.len() - i,
{
    if i < ks.len() && ks[i].prefix@ != kind {
        lemma_kind_index_from(ks, kind, i + 1);
    }
}

/// A proposal is for the kind asked, filed under that kind's configured folder
/// (the first kind entry with that prefix); an unknown kind is one no entry has.
pub proof fn lemma_proposal_folder(c: Config, g: grammar::GrammarV, f: Findings, kind: Seq<char>, title: Seq<char>)
    ensures
        propose_of(c, g, f, kind, title) matches IdOutcomeV::Proposed(p) ==> {
            &&& p.kind == kind
            &&& exists|i: int|
                0 <= i < c.kinds@.len() && (#[trigger] c.kinds@[i]).prefix@ == kind && p.folder == model::opt_view(
                    c.kinds@[i].folder,
                ) && forall|j: int| 0 <= j < i ==> (#[trigger] c.kinds@[j]).prefix@ != kind
        },
        propose_of(c, g, f, kind, title) is UnknownKind <==> forall|i: int|
            0 <= i < c.kinds@.len() ==> (#[trigger] c.kinds@[i]).prefix@ != kind,
{
    lemma_kind_index_from(c.kinds@, kind, 0);
    if let Some(k) = kind_index_from(c.kinds@, kind, 0) {
        assert(c.kinds@[k].prefix@ == kind);
    }
}


proof fn lemma_max_number_upto(gs: Seq<(model::IdV, Seq<model::DeclarationV>)>, kind: Seq<char>, k: int)
    requires
        0 <= k <= gs.len(),
    ensures
        forall|i: int|
            0 <= i < k && (#[trigger] gs[i]).0.kind == kind && gs[i].0.num is Some ==> gs[i].0.num->0 <= max_number_upto(gs, kind, k),
    decreases k,
{
    if k > 0 {
        lemma_max_number_upto(gs, kind, k - 1);
    }
}

/// Under a format with a number, a proposed number is free: above every number
/// already declared for the kind, so no declared ID of the kind has it.
pub proof fn lemma_proposal_number_free(c: Config, g: grammar::GrammarV, f: Findings, kind: Seq<char>, title: Seq<char>)
    ensures
        propose_of(c, g, f, kind, title) matches IdOutcomeV::Proposed(p) ==> (p.number matches Some(n) ==> forall|i: int|
            0 <= i < groups_view(f.declarations@).len() && (#[trigger] groups_view(f.declarations@)[i]).0.kind == kind
                && groups_view(f.declarations@)[i].0.num is Some ==> groups_view(f.declarations@)[i].0.num->0 < n),
{
    let gs = groups_view(f.declarations@);
    lemma_max_number_upto(gs, kind, gs.len() as int);
}

} // verus!
