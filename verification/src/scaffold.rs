//! What `grund init` writes: the managed `AGENTS.md` block rendered from its
//! template against the configuration, the generated `.agents/grund.toml`, the
//! `--docs` scaffold, and the `next:` hints. The template texts themselves are
//! handed in.
use vstd::prelude::*;
use crate::model::{self, Config, KindConfig};
use crate::text::{self, chars_of, string_from_chars};

verus! {

// ---------------------------------------------------------------- replacing

/// `s` from `i` on with every occurrence of `pat` (left to right, not overlapping)
/// replaced by `rep`, as `str::replace` does for a non-empty pattern.
pub open spec fn replace_from(s: Seq<char>, pat: Seq<char>, rep: Seq<char>, i: int) -> Seq<char>
    decreases s.len() - i,
{
    if pat.len() == 0 || i < 0 || i > s.len() {
        Seq::empty()
    } else {
        match text::find_from(s, pat, i) {
            None => s.subrange(i, s.len() as int),
            Some(j) => if j < i || j + pat.len() > s.len() {
                Seq::empty()
            } else {
                s.subrange(i, j) + rep + replace_from(s, pat, rep, j + pat.len())
            },
        }
    }
}

pub open spec fn replace_all(s: Seq<char>, pat: Seq<char>, rep: Seq<char>) -> Seq<char> {
    replace_from(s, pat, rep, 0)
}

pub fn replace_all_exec(s: &[char], pat: &[char], rep: &[char]) -> (r: Vec<char>)
    requires
        pat@.len() > 0,
    ensures
        r@ == replace_all(s@, pat@, rep@),
{
    let len = s.len();
    let mut out: Vec<char> = Vec::new();
    let mut i: usize = 0;
    loop
        invariant
            len == s@.len(),
            pat@.len() > 0,
            i <= len,
            out@ + replace_from(s@, pat@, rep@, i as int) == replace_all(s@, pat@, rep@),
        decreases len - i,
    {
        proof {
            text::lemma_find_from_bounds(s@, pat@, i as int);
        }
        match text::find_seq(s, pat, i) {
            None => {
                let rest = text::slice_range(s, i, len);
                text::push_all(&mut out, rest.as_slice());
                return out;
            },
            Some(j) => {
                let ghost before = out@;
                let pre = text::slice_range(s, i, j);
                text::push_all(&mut out, pre.as_slice());
                text::push_all(&mut out, rep);
                assert(out@ =~= before + (s@.subrange(i as int, j as int) + rep@));
                i = j + pat.len();
            },
        }
    }
}

fn replace_str(s: &[char], pat: &str, rep: &[char]) -> (r: Vec<char>)
    requires
        pat@.len() > 0,
    ensures
        r@ == replace_all(s@, pat@, rep@),
{
    let p = chars_of(pat);
    replace_all_exec(s, p.as_slice(), rep)
}

/// A template with its line endings made `\n`: `\r\n` first, then any lone `\r`.
pub open spec fn canonical_template_text(t: Seq<char>) -> Seq<char> {
    replace_all(replace_all(t, seq!['\r', '\n'], seq!['\n']), seq!['\r'], seq!['\n'])
}

pub fn canonical_template_text_exec(t: &str) -> (r: String)
    ensures
        r@ == canonical_template_text(t@),
{
    let tv = chars_of(t);
    let crlf = vec!['\r', '\n'];
    let cr = vec!['\r'];
    let lf = vec!['\n'];
    assert(crlf@ =~= seq!['\r', '\n']);
    assert(cr@ =~= seq!['\r']);
    assert(lf@ =~= seq!['\n']);
    let a = replace_all_exec(tv.as_slice(), crlf.as_slice(), lf.as_slice());
    let b = replace_all_exec(a.as_slice(), cr.as_slice(), lf.as_slice());
    string_from_chars(b.as_slice())
}

// ---------------------------------------------------------------- escaping

/// TOML basic-string escaping: `\` and `"` get a backslash.
pub open spec fn escape_toml_basic(s: Seq<char>) -> Seq<char>
    decreases s.len(),
{
    if s.len() == 0 {
        Seq::empty()
    } else {
        let c = s.last();
        escape_toml_basic(s.drop_last()) + if c == '\\' || c == '"' {
            seq!['\\', c]
        } else {
            seq![c]
        }
    }
}

/// A Markdown link label: `\`, `[` and `]` get a backslash.
pub open spec fn markdown_link_label(s: Seq<char>) -> Seq<char>
    decreases s.len(),
{
    if s.len() == 0 {
        Seq::empty()
    } else {
        let c = s.last();
        markdown_link_label(s.drop_last()) + if c == '\\' || c == '[' || c == ']' {
            seq!['\\', c]
        } else {
            seq![c]
        }
    }
}

/// `\` and `>` with a backslash (inside `<…>`).
pub open spec fn escape_angle(s: Seq<char>) -> Seq<char>
    decreases s.len(),
{
    if s.len() == 0 {
        Seq::empty()
    } else {
        let c = s.last();
        escape_angle(s.drop_last()) + if c == '\\' || c == '>' {
            seq!['\\', c]
        } else {
            seq![c]
        }
    }
}

/// `` ` `` with a backslash.
pub open spec fn escape_backtick(s: Seq<char>) -> Seq<char>
    decreases s.len(),
{
    if s.len() == 0 {
        Seq::empty()
    } else {
        let c = s.last();
        escape_backtick(s.drop_last()) + if c == '`' {
            seq!['\\', c]
        } else {
            seq![c]
        }
    }
}

/// A Markdown link destination: wrapped in `<…>` (with `\` and `>` escaped) when
/// it holds whitespace or `(`, `)`, `<`, `>`; as is otherwise.
pub open spec fn needs_angle(s: Seq<char>) -> bool {
    exists|i: int| 0 <= i < s.len() && (text::is_ws(#[trigger] s[i]) || s[i] == '(' || s[i] == ')' || s[i] == '<' || s[i] == '>')
}

pub open spec fn markdown_link_destination(s: Seq<char>) -> Seq<char> {
    if needs_angle(s) {
        seq!['<'] + escape_angle(s) + seq!['>']
    } else {
        s
    }
}

/// Which per-character escape to apply.
pub enum Escape {
    Toml,
    Label,
    Angle,
    Backtick,
}

pub open spec fn escaped(e: Escape, s: Seq<char>) -> Seq<char> {
    match e {
        Escape::Toml => escape_toml_basic(s),
        Escape::Label => markdown_link_label(s),
        Escape::Angle => escape_angle(s),
        Escape::Backtick => escape_backtick(s),
    }
}

pub fn escape_exec(e: &Escape, s: &str) -> (r: Vec<char>)
    ensures
        r@ == escaped(*e, s@),
{
    let cs = chars_of(s);
    let mut out: Vec<char> = Vec::new();
    let mut i: usize = 0;
    while i < cs.len()
        invariant
            i <= cs@.len(),
            cs@ == s@,
            out@ == escaped(*e, cs@.subrange(0, i as int)),
        decreases cs@.len() - i,
    {
        let c = cs[i];
        let special = match e {
            Escape::Toml => c == '\\' || c == '"',
            Escape::Label => c == '\\' || c == '[' || c == ']',
            Escape::Angle => c == '\\' || c == '>',
            Escape::Backtick => c == '`',
        };
        let ghost before = out@;
        if special {
            out.push('\\');
        }
        out.push(c);
        proof {
            let p = cs@.subrange(0, i + 1);
            assert(p.drop_last() =~= cs@.subrange(0, i as int));
            if special {
                assert(out@ =~= before + seq!['\\', c]);
            } else {
                assert(out@ =~= before + seq![c]);
            }
        }
        i = i + 1;
    }
    assert(cs@.subrange(0, cs@.len() as int) =~= cs@);
    out
}

pub fn escape_toml_basic_exec(s: &str) -> (r: String)
    ensures
        r@ == escape_toml_basic(s@),
{
    let v = escape_exec(&Escape::Toml, s);
    string_from_chars(v.as_slice())
}

pub fn markdown_link_destination_exec(s: &str) -> (r: Vec<char>)
    ensures
        r@ == markdown_link_destination(s@),
{
    let cs = chars_of(s);
    let mut i: usize = 0;
    let mut found = false;
    while i < cs.len()
        invariant_except_break
            !found,
        invariant
            i <= cs@.len(),
            cs@ == s@,
            forall|k: int| 0 <= k < i ==> !(text::is_ws(#[trigger] cs@[k]) || cs@[k] == '(' || cs@[k] == ')' || cs@[k] == '<' || cs@[k] == '>'),
        ensures
            found ==> i < cs@.len() && (text::is_ws(cs@[i as int]) || cs@[i as int] == '(' || cs@[i as int] == ')' || cs@[i as int] == '<' || cs@[i as int] == '>'),
            !found ==> i == cs@.len(),
        decreases cs@.len() - i,
    {
        let c = cs[i];
        if text::is_whitespace(c) || c == '(' || c == ')' || c == '<' || c == '>' {
            found = true;
            break;
        }
        i = i + 1;
    }
    if found {
        assert(text::is_ws(cs@[i as int]) || cs@[i as int] == '(' || cs@[i as int] == ')' || cs@[i as int] == '<' || cs@[i as int] == '>');
        let mut out = vec!['<'];
        let inner = escape_exec(&Escape::Angle, s);
        text::push_all(&mut out, inner.as_slice());
        out.push('>');
        assert(out@ =~= seq!['<'] + escape_angle(s@) + seq!['>']);
        out
    } else {
        cs
    }
}

/// `["a", "b"]` with each value TOML-escaped.
pub open spec fn toml_items(vs: Seq<Seq<char>>) -> Seq<char>
    decreases vs.len(),
{
    if vs.len() == 0 {
        Seq::empty()
    } else {
        let item = seq!['"'] + escape_toml_basic(vs.last()) + seq!['"'];
        if vs.len() == 1 {
            item
        } else {
            toml_items(vs.drop_last()) + seq![',', ' '] + item
        }
    }
}

pub open spec fn format_toml_string_list(vs: Seq<Seq<char>>) -> Seq<char> {
    seq!['['] + toml_items(vs) + seq![']']
}

pub fn format_toml_string_list_exec(vs: &Vec<String>) -> (r: String)
    ensures
        r@ == format_toml_string_list(model::str_views(vs@)),
{
    let ghost sv = model::str_views(vs@);
    let mut out = vec!['['];
    let mut i: usize = 0;
    while i < vs.len()
        invariant
            i <= vs@.len(),
            sv == model::str_views(vs@),
            out@ == seq!['['] + toml_items(sv.subrange(0, i as int)),
        decreases vs@.len() - i,
    {
        let ghost before = out@;
        if i > 0 {
            out.push(',');
            out.push(' ');
        }
        out.push('"');
        let e = escape_exec(&Escape::Toml, vs[i].as_str());
        text::push_all(&mut out, e.as_slice());
        out.push('"');
        proof {
            let p = sv.subrange(0, i + 1);
            assert(p.drop_last() =~= sv.subrange(0, i as int));
            assert(p.last() == vs@[i as int]@);
            let item = seq!['"'] + escape_toml_basic(p.last()) + seq!['"'];
            if i > 0 {
                assert(out@ =~= seq!['['] + (toml_items(sv.subrange(0, i as int)) + seq![',', ' '] + item));
            } else {
                assert(out@ =~= seq!['['] + item);
            }
        }
        i = i + 1;
    }
    assert(sv.subrange(0, sv.len() as int) =~= sv);
    out.push(']');
    string_from_chars(out.as_slice())
}

// ---------------------------------------------------------------- the managed block

/// One table row of the declaration map per configured kind: its prefix, its home
/// file or folder (or `inline`), and its title.
pub open spec fn declaration_map_line(k: KindConfig) -> Seq<char> {
    let title = match k.title {
        Some(t) => t@,
        None => "Declaration"@,
    };
    let home = match k.file {
        Some(f) => Some(f@),
        None => match k.folder {
            Some(d) => Some(d@),
            None => None,
        },
    };
    match home {
        Some(h) => "| `"@ + escape_backtick(k.prefix@) + "` | `"@ + escape_backtick(h) + "` | "@ + title + " |"@,
        None => "| `"@ + escape_backtick(k.prefix@) + "` | inline | "@ + title + " |"@,
    }
}

pub open spec fn declaration_map(kinds: Seq<KindConfig>) -> Seq<char> {
    crate::rewrite::join_lines(Seq::new(kinds.len(), |i: int| declaration_map_line(kinds[i])))
}

pub fn declaration_map_exec(config: &Config) -> (r: Vec<char>)
    ensures
        r@ == declaration_map(config.kinds@),
{
    let ghost ks = config.kinds@;
    let ghost lines = Seq::new(ks.len(), |i: int| declaration_map_line(ks[i]));
    let mut out: Vec<char> = Vec::new();
    let mut i: usize = 0;
    while i < config.kinds.len()
        invariant
            i <= config.kinds@.len(),
            ks == config.kinds@,
            lines == Seq::new(ks.len(), |m: int| declaration_map_line(ks[m])),
            out@ == crate::rewrite::join_lines(lines.subrange(0, i as int)),
        decreases config.kinds@.len() - i,
    {
        let k = &config.kinds[i];
        let mut line: Vec<char> = Vec::new();
        let title = match &k.title {
            Some(t) => t.clone(),
            None => String::from_str("Declaration"),
        };
        let home: Option<&String> = match &k.file {
            Some(f) => Some(f),
            None => match &k.folder {
                Some(d) => Some(d),
                None => None,
            },
        };
        match home {
            Some(h) => {
                crate::queries::push_str(&mut line, "| `");
                let b = escape_exec(&Escape::Backtick, k.prefix.as_str());
                text::push_all(&mut line, b.as_slice());
                crate::queries::push_str(&mut line, "` | `");
                let d = escape_exec(&Escape::Backtick, h.as_str());
                text::push_all(&mut line, d.as_slice());
                crate::queries::push_str(&mut line, "` | ");
                crate::queries::push_str(&mut line, title.as_str());
                crate::queries::push_str(&mut line, " |");
            },
            None => {
                crate::queries::push_str(&mut line, "| `");
                let b = escape_exec(&Escape::Backtick, k.prefix.as_str());
                text::push_all(&mut line, b.as_slice());
                crate::queries::push_str(&mut line, "` | inline | ");
                crate::queries::push_str(&mut line, title.as_str());
                crate::queries::push_str(&mut line, " |");
            },
        }
        assert(line@ =~= declaration_map_line(*k));
        let ghost before = out@;
        if i > 0 {
            out.push('\n');
        }
        text::push_all(&mut out, line.as_slice());
        proof {
            let p = lines.subrange(0, i + 1);
            assert(p.drop_last() =~= lines.subrange(0, i as int));
            assert(p.last() == line@);
            if i > 0 {
                assert(out@ =~= crate::rewrite::join_lines(lines.subrange(0, i as int)) + seq!['\n'] + line@);
            } else {
                assert(out@ =~= line@);
            }
        }
        i = i + 1;
    }
    assert(lines.subrange(0, lines.len() as int) =~= lines);
    out
}

/// The placeholders of the `AGENTS.md` template and what each becomes.
pub open spec fn id_shape(c: Config) -> Seq<char> {
    replace_all(replace_all(replace_all(c.id_format@, "{kind}"@, "<KIND>"@), "{number}"@, "<NNN>"@), "{slug}"@, "<slug>"@)
}

pub open spec fn id_example(c: Config) -> Seq<char> {
    replace_all(replace_all(replace_all(c.id_format@, "{kind}"@, "FS"@), "{number}"@, "042"@), "{slug}"@, "user-login"@)
}

pub open spec fn bare_token_note(c: Config) -> Seq<char> {
    if c.strict {
        "Bare ID-shaped tokens are ignored \u{2014} `[reference] strict = true` is set in `.agents/grund.toml`, so only `"@
            + c.marker@ + "`-prefixed citations are checked."@
    } else {
        "Bare ID-shaped tokens are also recognized as citations for backward compatibility; set `[reference] strict = true` in `.agents/grund.toml` to require the `"@
            + c.marker@ + "` marker (run `grund fmt --marker` first to upgrade existing bare citations)."@
    }
}

pub open spec fn kinds_set(c: Config) -> Seq<char> {
    seq!['{'] + crate::queries::join_comma_space(model::kind_prefix_views(c.kinds@)) + seq!['}']
}

/// The scanned roots: `[scan] include` when set, else the canonical layout.
pub open spec fn scope_roots(c: Config) -> Seq<Seq<char>> {
    match c.scan_roots {
        Some(v) => model::str_views(v@),
        None => seq!["docs"@, "e2e"@, "src"@],
    }
}

/// The scanned roots as the guidance names them: each in backticks, comma-separated.
pub open spec fn scan_scope(c: Config) -> Seq<char> {
    let rs = scope_roots(c);
    crate::queries::join_comma_space(Seq::new(rs.len(), |i: int| "`"@ + rs[i] + "`"@))
}

pub open spec fn substitutions(name: Seq<char>, c: Config) -> Seq<(Seq<char>, Seq<char>)> {
    let sep = c.section_separator@;
    seq![
        ("{NAME}"@, name),
        ("{ID_SHAPE_SEC}"@, id_shape(c) + seq!['['] + sep + "<section>]"@),
        ("{ID_SHAPE}"@, id_shape(c)),
        ("{ID_EXAMPLE}"@, id_example(c)),
        ("{CITE_EXAMPLE}"@, c.marker@ + id_example(c) + sep + seq!['3'] + sep + seq!['1']),
        ("{KINDS_SET}"@, kinds_set(c)),
        ("{BARE_TOKEN_NOTE}"@, bare_token_note(c)),
        ("{MARKER}"@, c.marker@),
        ("{TRIGGER}"@, c.trigger@),
        ("{DECLARATION_MAP}"@, declaration_map(c.kinds@)),
        ("{SCAN_SCOPE}"@, scan_scope(c)),
    ]
}

/// `t` with each substitution applied in turn.
pub open spec fn substitute(t: Seq<char>, subs: Seq<(Seq<char>, Seq<char>)>) -> Seq<char>
    decreases subs.len(),
{
    if subs.len() == 0 {
        t
    } else {
        replace_all(substitute(t, subs.drop_last()), subs.last().0, subs.last().1)
    }
}

/// The managed block: the template, line endings made `\n`, placeholders filled.
pub open spec fn render_agents_append_block(template: Seq<char>, name: Seq<char>, c: Config) -> Seq<char> {
    substitute(canonical_template_text(template), substitutions(name, c))
}

/// A fresh `AGENTS.md`: an H1 with the project name, then the managed block.
pub open spec fn render_agents_md(template: Seq<char>, name: Seq<char>, c: Config) -> Seq<char> {
    "# "@ + name + " \u{2014} agent instructions\n\n"@ + render_agents_append_block(template, name, c)
}

fn join_prefixes(config: &Config) -> (r: Vec<char>)
    ensures
        r@ == crate::queries::join_comma_space(model::kind_prefix_views(config.kinds@)),
{
    let ghost ps = model::kind_prefix_views(config.kinds@);
    let mut out: Vec<char> = Vec::new();
    let mut i: usize = 0;
    while i < config.kinds.len()
        invariant
            i <= config.kinds@.len(),
            ps == model::kind_prefix_views(config.kinds@),
            out@ == crate::queries::join_comma_space(ps.subrange(0, i as int)),
        decreases config.kinds@.len() - i,
    {
        let ghost before = out@;
        if i > 0 {
            out.push(',');
            out.push(' ');
        }
        crate::queries::push_str(&mut out, config.kinds[i].prefix.as_str());
        proof {
            let p = ps.subrange(0, i + 1);
            assert(p.drop_last() =~= ps.subrange(0, i as int));
            assert(p.last() == config.kinds@[i as int].prefix@);
            if i > 0 {
                assert(out@ =~= crate::queries::join_comma_space(ps.subrange(0, i as int)) + seq![',', ' '] + p.last());
            } else {
                assert(out@ =~= p.last());
            }
        }
        i = i + 1;
    }
    assert(ps.subrange(0, ps.len() as int) =~= ps);
    out
}

/// The substitutions for a project name and configuration.
pub fn agents_template_substitutions(name: &str, config: &Config) -> (r: Vec<(String, String)>)
    ensures
        Seq::new(r@.len(), |i: int| (r@[i].0@, r@[i].1@)) == substitutions(name@, *config),
{
    proof {
        reveal_strlit("{kind}");
        reveal_strlit("{number}");
        reveal_strlit("{slug}");
    }
    let fv = chars_of(config.id_format.as_str());
    let k1 = chars_of("<KIND>");
    let n1 = chars_of("<NNN>");
    let s1 = chars_of("<slug>");
    let a = replace_str(fv.as_slice(), "{kind}", k1.as_slice());
    let b = replace_str(a.as_slice(), "{number}", n1.as_slice());
    let shape = replace_str(b.as_slice(), "{slug}", s1.as_slice());
    let k2 = chars_of("FS");
    let n2 = chars_of("042");
    let s2 = chars_of("user-login");
    let a2 = replace_str(fv.as_slice(), "{kind}", k2.as_slice());
    let b2 = replace_str(a2.as_slice(), "{number}", n2.as_slice());
    let example = replace_str(b2.as_slice(), "{slug}", s2.as_slice());
    let sep = chars_of(config.section_separator.as_str());
    let mut shape_sec = shape.clone();
    shape_sec.push('[');
    text::push_all(&mut shape_sec, sep.as_slice());
    crate::queries::push_str(&mut shape_sec, "<section>]");
    let mut cite = chars_of(config.marker.as_str());
    text::push_all(&mut cite, example.as_slice());
    text::push_all(&mut cite, sep.as_slice());
    cite.push('3');
    text::push_all(&mut cite, sep.as_slice());
    cite.push('1');
    let mut set = vec!['{'];
    let jp = join_prefixes(config);
    text::push_all(&mut set, jp.as_slice());
    set.push('}');
    let mut note: Vec<char> = Vec::new();
    if config.strict {
        crate::queries::push_str(&mut note, "Bare ID-shaped tokens are ignored \u{2014} `[reference] strict = true` is set in `.agents/grund.toml`, so only `");
        crate::queries::push_str(&mut note, config.marker.as_str());
        crate::queries::push_str(&mut note, "`-prefixed citations are checked.");
    } else {
        crate::queries::push_str(&mut note, "Bare ID-shaped tokens are also recognized as citations for backward compatibility; set `[reference] strict = true` in `.agents/grund.toml` to require the `");
        crate::queries::push_str(&mut note, config.marker.as_str());
        crate::queries::push_str(&mut note, "` marker (run `grund fmt --marker` first to upgrade existing bare citations).");
    }
    let map = declaration_map_exec(config);
    let scope = scan_scope_exec(config);
    let r = vec![
        (String::from_str("{NAME}"), String::from_str(name)),
        (String::from_str("{ID_SHAPE_SEC}"), string_from_chars(shape_sec.as_slice())),
        (String::from_str("{ID_SHAPE}"), string_from_chars(shape.as_slice())),
        (String::from_str("{ID_EXAMPLE}"), string_from_chars(example.as_slice())),
        (String::from_str("{CITE_EXAMPLE}"), string_from_chars(cite.as_slice())),
        (String::from_str("{KINDS_SET}"), string_from_chars(set.as_slice())),
        (String::from_str("{BARE_TOKEN_NOTE}"), string_from_chars(note.as_slice())),
        (String::from_str("{MARKER}"), config.marker.clone()),
        (String::from_str("{TRIGGER}"), config.trigger.clone()),
        (String::from_str("{DECLARATION_MAP}"), string_from_chars(map.as_slice())),
        (String::from_str("{SCAN_SCOPE}"), string_from_chars(scope.as_slice())),
    ];
    assert(shape@ == id_shape(*config));
    assert(example@ == id_example(*config));
    assert(shape_sec@ =~= id_shape(*config) + seq!['['] + config.section_separator@ + "<section>]"@);
    assert(cite@ =~= config.marker@ + id_example(*config) + config.section_separator@ + seq!['3'] + config.section_separator@ + seq!['1']);
    assert(set@ =~= kinds_set(*config));
    assert(note@ =~= bare_token_note(*config));
    assert(Seq::new(r@.len(), |i: int| (r@[i].0@, r@[i].1@)) =~= substitutions(name@, *config));
    r
}

fn scan_scope_exec(config: &Config) -> (r: Vec<char>)
    ensures
        r@ == scan_scope(*config),
{
    let roots: Vec<String> = match &config.scan_roots {
        Some(v) => v.clone(),
        None => vec![String::from_str("docs"), String::from_str("e2e"), String::from_str("src")],
    };
    proof {
        reveal_strlit("docs");
        reveal_strlit("e2e");
        reveal_strlit("src");
    }
    assert(model::str_views(roots@) =~= scope_roots(*config));
    let ghost rs = scope_roots(*config);
    let ghost ps = Seq::new(rs.len(), |i: int| "`"@ + rs[i] + "`"@);
    let mut out: Vec<char> = Vec::new();
    let mut i: usize = 0;
    while i < roots.len()
        invariant
            i <= roots@.len(),
            model::str_views(roots@) == rs,
            ps == Seq::new(rs.len(), |m: int| "`"@ + rs[m] + "`"@),
            out@ == crate::queries::join_comma_space(ps.subrange(0, i as int)),
        decreases roots@.len() - i,
    {
        let ghost before = out@;
        if i > 0 {
            out.push(',');
            out.push(' ');
        }
        crate::queries::push_str(&mut out, "`");
        crate::queries::push_str(&mut out, roots[i].as_str());
        crate::queries::push_str(&mut out, "`");
        proof {
            let p = ps.subrange(0, i + 1);
            assert(p.drop_last() =~= ps.subrange(0, i as int));
            assert(rs[i as int] == roots@[i as int]@);
            assert(p.last() == "`"@ + roots@[i as int]@ + "`"@);
            if i > 0 {
                assert(out@ =~= crate::queries::join_comma_space(ps.subrange(0, i as int)) + seq![',', ' '] + p.last());
            } else {
                assert(out@ =~= p.last());
            }
        }
        i = i + 1;
    }
    assert(ps.subrange(0, ps.len() as int) =~= ps);
    out
}

/// Renders the managed block from its template.
pub fn render_agents_append_block_exec(template: &str, name: &str, config: &Config) -> (r: String)
    ensures
        r@ == render_agents_append_block(template@, name@, *config),
{
    let subs = agents_template_substitutions(name, config);
    let ghost sv = Seq::new(subs@.len(), |i: int| (subs@[i].0@, subs@[i].1@));
    let canon = canonical_template_text_exec(template);
    let mut cur = chars_of(canon.as_str());
    let mut i: usize = 0;
    proof {
        reveal_strlit("{NAME}");
        reveal_strlit("{ID_SHAPE_SEC}");
        reveal_strlit("{ID_SHAPE}");
        reveal_strlit("{ID_EXAMPLE}");
        reveal_strlit("{CITE_EXAMPLE}");
        reveal_strlit("{KINDS_SET}");
        reveal_strlit("{BARE_TOKEN_NOTE}");
        reveal_strlit("{MARKER}");
        reveal_strlit("{TRIGGER}");
        reveal_strlit("{DECLARATION_MAP}");
        reveal_strlit("{SCAN_SCOPE}");
    }
    while i < subs.len()
        invariant
            i <= subs@.len(),
            sv == Seq::new(subs@.len(), |m: int| (subs@[m].0@, subs@[m].1@)),
            sv == substitutions(name@, *config),
            forall|m: int| 0 <= m < sv.len() ==> (#[trigger] sv[m]).0.len() > 0,
            cur@ == substitute(canonical_template_text(template@), sv.subrange(0, i as int)),
        decreases subs@.len() - i,
    {
        let p = chars_of(subs[i].0.as_str());
        let v = chars_of(subs[i].1.as_str());
        assert(sv[i as int].0.len() > 0);
        let next = replace_all_exec(cur.as_slice(), p.as_slice(), v.as_slice());
        proof {
            let pr = sv.subrange(0, i + 1);
            assert(pr.drop_last() =~= sv.subrange(0, i as int));
        }
        cur = next;
        i = i + 1;
    }
    assert(sv.subrange(0, sv.len() as int) =~= sv);
    string_from_chars(cur.as_slice())
}

pub fn render_agents_md_exec(template: &str, name: &str, config: &Config) -> (r: String)
    ensures
        r@ == render_agents_md(template@, name@, *config),
{
    let block = render_agents_append_block_exec(template, name, config);
    let mut s = String::from_str("# ");
    s.append(name);
    s.append(" \u{2014} agent instructions\n\n");
    s.append(block.as_str());
    s
}

/// The generated `.agents/grund.toml`: its template with `{NAME}` filled by the
/// TOML-escaped project name.
pub open spec fn render_grund_toml(template: Seq<char>, name: Seq<char>) -> Seq<char> {
    replace_all(canonical_template_text(template), "{NAME}"@, escape_toml_basic(name))
}

pub fn render_grund_toml_exec(template: &str, name: &str) -> (r: String)
    ensures
        r@ == render_grund_toml(template@, name@),
{
    let canon = canonical_template_text_exec(template);
    let cv = chars_of(canon.as_str());
    let e = escape_exec(&Escape::Toml, name);
    proof {
        reveal_strlit("{NAME}");
    }
    let r = replace_str(cv.as_slice(), "{NAME}", e.as_slice());
    string_from_chars(r.as_slice())
}

} // verus!
