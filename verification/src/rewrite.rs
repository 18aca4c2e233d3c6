//! The `fmt` rewrites of one line: a `$$<ID>` trigger becomes a `§<ID>` citation,
//! bare ID tokens gain the marker (`--marker`), and `[§<ID>](url)` link wrappers
//! are flattened back to bare citations (what `show` prints).
use vstd::prelude::*;
use crate::checker::groups_view;
use crate::grammar::{self, Grammar};
use crate::links;
use crate::model::{self, Config, Findings};
use crate::scanner;
use crate::text;
use crate::tree::SourceFile;

verus! {

// ---------------------------------------------------------------- triggers

/// The trigger at `start` (ending at `after`) is rewritten: an ID token starts right
/// after it, and it is not in a source string literal, nor in Markdown inline code
/// or a link destination.
pub open spec fn trigger_ok(g: grammar::GrammarV, s: Seq<char>, start: int, after: int, is_md: bool) -> bool {
    &&& grammar::token_at(g, s, after) is Some
    &&& (is_md || !text::spec_inside_string_literal(s, start))
    &&& (!is_md || !text::spec_inside_inline_code(s, start))
    &&& (!is_md || !text::spec_inside_markdown_link_destination(s, start))
}

/// `s` from `cursor` on with every rewritable trigger replaced by the marker.
pub open spec fn replace_trigger_from(g: grammar::GrammarV, s: Seq<char>, trig: Seq<char>, marker: Seq<char>, is_md: bool, cursor: int) -> Seq<char>
    decreases s.len() - cursor,
{
    if trig.len() == 0 || cursor < 0 || cursor > s.len() {
        s
    } else {
        match text::find_from(s, trig, cursor) {
            None => s.subrange(cursor, s.len() as int),
            Some(start) => {
                let after = start + trig.len();
                if after <= cursor || after > s.len() || start < cursor {
                    s
                } else if trigger_ok(g, s, start, after, is_md) {
                    s.subrange(cursor, start) + marker + replace_trigger_from(g, s, trig, marker, is_md, after)
                } else {
                    s.subrange(cursor, after) + replace_trigger_from(g, s, trig, marker, is_md, after)
                }
            },
        }
    }
}

pub open spec fn replace_trigger(g: grammar::GrammarV, s: Seq<char>, trig: Seq<char>, marker: Seq<char>, is_md: bool) -> Seq<char> {
    replace_trigger_from(g, s, trig, marker, is_md, 0)
}

/// Rewrites each `<trigger><ID>` to `<marker><ID>` on one line.
pub fn replace_trigger_exec(g: &Grammar, line: &[char], trig: &[char], marker: &[char], is_md: bool) -> (r: Vec<char>)
    requires
        g.wf(),
        trig@.len() > 0,
    ensures
        r@ == replace_trigger(g@, line@, trig@, marker@, is_md),
{
    let len = line.len();
    let mut out: Vec<char> = Vec::new();
    let mut cursor: usize = 0;
    loop
        invariant
            g.wf(),
            trig@.len() > 0,
            len == line@.len(),
            cursor <= len,
            out@ + replace_trigger_from(g@, line@, trig@, marker@, is_md, cursor as int)
                == replace_trigger(g@, line@, trig@, marker@, is_md),
        decreases len - cursor,
    {
        let ghost before = out@;
        proof {
            text::lemma_find_from_bounds(line@, trig@, cursor as int);
        }
        match text::find_seq(line, trig, cursor) {
            None => {
                let rest = text::slice_range(line, cursor, len);
                text::push_all(&mut out, rest.as_slice());
                return out;
            },
            Some(start) => {
                let after = start + trig.len();
                let ok = g.token_at(line, after).is_some() && (is_md || !text::is_inside_string_literal(
                    line,
                    start,
                )) && (!is_md || !text::is_inside_inline_code(line, start)) && (!is_md
                    || !text::is_inside_markdown_link_destination(line, start));
                if ok {
                    let pre = text::slice_range(line, cursor, start);
                    text::push_all(&mut out, pre.as_slice());
                    text::push_all(&mut out, marker);
                    assert(out@ =~= before + (line@.subrange(cursor as int, start as int) + marker@));
                } else {
                    let pre = text::slice_range(line, cursor, after);
                    text::push_all(&mut out, pre.as_slice());
                }
                cursor = after;
            },
        }
    }
}

// ---------------------------------------------------------------- markers

/// A token `--marker` leaves alone: namespaced, already marked, or in inline code
/// or a link destination (Markdown) or a string literal (source).
pub open spec fn marker_skip(s: Seq<char>, t: grammar::TokenV, marker: Seq<char>, is_md: bool) -> bool {
    ||| t.namespace is Some
    ||| text::ends_with(s.subrange(0, t.start), marker)
    ||| (is_md && text::spec_inside_inline_code(s, t.start))
    ||| (is_md && text::spec_inside_markdown_link_destination(s, t.start))
    ||| (!is_md && text::spec_inside_string_literal(s, t.start))
}

/// The text produced and the cursor after the first `k` tokens.
pub open spec fn markers_upto(s: Seq<char>, ts: Seq<grammar::TokenV>, marker: Seq<char>, is_md: bool, k: int) -> (Seq<char>, int)
    decreases k,
{
    if k <= 0 || k > ts.len() {
        (Seq::empty(), 0)
    } else {
        let (out, cur) = markers_upto(s, ts, marker, is_md, k - 1);
        let t = ts[k - 1];
        if marker_skip(s, t, marker, is_md) {
            (out, cur)
        } else {
            (out + s.subrange(cur, t.start) + marker + s.subrange(t.start, t.end), t.end)
        }
    }
}

/// The line with the marker put in front of every bare ID token.
pub open spec fn add_markers(g: grammar::GrammarV, s: Seq<char>, marker: Seq<char>, is_md: bool) -> Seq<char> {
    let ts = grammar::line_tokens(g, s);
    let (out, cur) = markers_upto(s, ts, marker, is_md, ts.len() as int);
    out + s.subrange(cur, s.len() as int)
}

proof fn lemma_markers_cursor(s: Seq<char>, ts: Seq<grammar::TokenV>, marker: Seq<char>, is_md: bool, k: int)
    requires
        grammar::tokens_ordered(ts, 0, s.len() as int),
        0 <= k <= ts.len(),
    ensures
        0 <= markers_upto(s, ts, marker, is_md, k).1 <= s.len(),
        forall|m: int| k <= m < ts.len() ==> markers_upto(s, ts, marker, is_md, k).1 <= #[trigger] ts[m].start,
    decreases k,
{
    if k > 0 {
        lemma_markers_cursor(s, ts, marker, is_md, k - 1);
        assert forall|m: int| k <= m < ts.len() implies markers_upto(s, ts, marker, is_md, k).1 <= #[trigger] ts[m].start by {
            assert(ts[k - 1].end <= ts[m].start);
        }
    }
}

/// Puts the marker in front of every bare ID token of one line.
pub fn add_markers_exec(g: &Grammar, line: &[char], marker: &[char], is_md: bool) -> (r: Vec<char>)
    requires
        g.wf(),
    ensures
        r@ == add_markers(g@, line@, marker@, is_md),
{
    let ts = g.line_tokens(line);
    let ghost tv = grammar::line_tokens(g@, line@);
    proof {
        grammar::lemma_tokens_ordered(g@, line@, 0);
    }
    let mut out: Vec<char> = Vec::new();
    let mut cursor: usize = 0;
    let mut k: usize = 0;
    while k < ts.len()
        invariant
            k <= ts@.len(),
            tv == grammar::line_tokens(g@, line@),
            grammar::token_views(ts@) == tv,
            grammar::tokens_ordered(tv, 0, line@.len() as int),
            (out@, cursor as int) == markers_upto(line@, tv, marker@, is_md, k as int),
        decreases ts@.len() - k,
    {
        proof {
            lemma_markers_cursor(line@, tv, marker@, is_md, k as int);
        }
        let t = &ts[k];
        assert(tv[k as int] == t@);
        assert(0 <= tv[k as int].start < tv[k as int].end <= line@.len());
        assert(cursor <= tv[k as int].start);
        let skip = t.namespace.is_some() || text::prefix_ends_with(line, t.start, marker) || (is_md
            && text::is_inside_inline_code(line, t.start)) || (is_md
            && text::is_inside_markdown_link_destination(line, t.start)) || (!is_md
            && text::is_inside_string_literal(line, t.start));
        if !skip {
            let ghost before = out@;
            let pre = text::slice_range(line, cursor, t.start);
            text::push_all(&mut out, pre.as_slice());
            text::push_all(&mut out, marker);
            let tok = text::slice_range(line, t.start, t.end);
            text::push_all(&mut out, tok.as_slice());
            assert(out@ =~= before + line@.subrange(cursor as int, t.start as int) + marker@ + line@.subrange(
                t.start as int,
                t.end as int,
            ));
            cursor = t.end;
        }
        k = k + 1;
    }
    proof {
        lemma_markers_cursor(line@, tv, marker@, is_md, k as int);
    }
    let rest = text::slice_range(line, cursor, line.len());
    text::push_all(&mut out, rest.as_slice());
    out
}

// ---------------------------------------------------------------- flattening link wrappers

/// A `[<marker><citation>](…)` wrapper around token `t`: the positions of `[`, of
/// the marker, and of the closing `)`.
pub open spec fn flatten_hit(s: Seq<char>, marker: Seq<char>, t: grammar::TokenV) -> Option<(int, int, int)> {
    let ms = t.start - marker.len();
    if text::ends_with(s.subrange(0, t.start), marker) && ms >= 1 && s[ms - 1] == '['
        && !text::spec_inside_inline_code(s, ms - 1) && text::occurs_at(s, seq![']', '('], t.end) {
        match text::find_from(s, seq![')'], t.end + 2) {
            Some(close) => Some((ms - 1, ms, close)),
            None => None,
        }
    } else {
        None
    }
}

pub open spec fn flatten_upto(s: Seq<char>, ts: Seq<grammar::TokenV>, marker: Seq<char>, k: int) -> (Seq<char>, int)
    decreases k,
{
    if k <= 0 || k > ts.len() {
        (Seq::empty(), 0)
    } else {
        let (out, cur) = flatten_upto(s, ts, marker, k - 1);
        let t = ts[k - 1];
        match flatten_hit(s, marker, t) {
            Some((b, ms, close)) => if b >= cur {
                (out + s.subrange(cur, b) + s.subrange(ms, t.end), close + 1)
            } else {
                (out, cur)
            },
            None => (out, cur),
        }
    }
}

/// One line with every `[<marker><citation>](…)` wrapper reduced to the citation.
pub open spec fn flatten_line(g: grammar::GrammarV, s: Seq<char>, marker: Seq<char>) -> Seq<char> {
    let ts = grammar::line_tokens(g, s);
    let (out, cur) = flatten_upto(s, ts, marker, ts.len() as int);
    out + s.subrange(cur, s.len() as int)
}

proof fn lemma_flatten_hit(s: Seq<char>, marker: Seq<char>, t: grammar::TokenV)
    requires
        0 <= t.start < t.end <= s.len(),
    ensures
        flatten_hit(s, marker, t) matches Some((b, ms, close)) ==> 0 <= b && b + 1 == ms && ms
            + marker.len() == t.start && t.end + 2 <= close < s.len(),
{
    let ms = t.start - marker.len();
    if text::ends_with(s.subrange(0, t.start), marker) && ms >= 1 && s[ms - 1] == '['
        && !text::spec_inside_inline_code(s, ms - 1) && text::occurs_at(s, seq![']', '('], t.end) {
        text::lemma_find_from_bounds(s, seq![')'], t.end + 2);
    }
}

proof fn lemma_flatten_cursor(s: Seq<char>, ts: Seq<grammar::TokenV>, marker: Seq<char>, k: int)
    requires
        grammar::tokens_ordered(ts, 0, s.len() as int),
        0 <= k <= ts.len(),
    ensures
        0 <= flatten_upto(s, ts, marker, k).1 <= s.len(),
    decreases k,
{
    if k > 0 {
        lemma_flatten_cursor(s, ts, marker, k - 1);
        lemma_flatten_hit(s, marker, ts[k - 1]);
    }
}

/// Flattens link wrappers on one line.
pub fn flatten_line_exec(g: &Grammar, line: &[char], marker: &[char]) -> (r: Vec<char>)
    requires
        g.wf(),
    ensures
        r@ == flatten_line(g@, line@, marker@),
{
    let ts = g.line_tokens(line);
    let ghost tv = grammar::line_tokens(g@, line@);
    proof {
        grammar::lemma_tokens_ordered(g@, line@, 0);
    }
    let close_open = vec![']', '('];
    let close_paren = vec![')'];
    assert(close_open@ =~= seq![']', '(']);
    assert(close_paren@ =~= seq![')']);
    let mut out: Vec<char> = Vec::new();
    let mut cursor: usize = 0;
    let mut k: usize = 0;
    while k < ts.len()
        invariant
            k <= ts@.len(),
            tv == grammar::line_tokens(g@, line@),
            grammar::token_views(ts@) == tv,
            grammar::tokens_ordered(tv, 0, line@.len() as int),
            close_open@ == seq![']', '('],
            close_paren@ == seq![')'],
            cursor <= line@.len(),
            (out@, cursor as int) == flatten_upto(line@, tv, marker@, k as int),
        decreases ts@.len() - k,
    {
        let t = &ts[k];
        assert(tv[k as int] == t@);
        assert(0 <= tv[k as int].start < tv[k as int].end <= line@.len());
        proof {
            lemma_flatten_hit(line@, marker@, t@);
            lemma_flatten_cursor(line@, tv, marker@, k + 1);
        }
        if text::prefix_ends_with(line, t.start, marker) && t.start - marker.len() >= 1 {
            let ms = t.start - marker.len();
            let b = ms - 1;
            if line[b] == '[' && !text::is_inside_inline_code(line, b) && text::matches_at(
                line,
                t.end,
                close_open.as_slice(),
            ) {
                match text::find_seq(line, close_paren.as_slice(), t.end + 2) {
                    Some(close) => {
                        if b >= cursor {
                            let ghost before = out@;
                            let pre = text::slice_range(line, cursor, b);
                            text::push_all(&mut out, pre.as_slice());
                            let cite = text::slice_range(line, ms, t.end);
                            text::push_all(&mut out, cite.as_slice());
                            assert(out@ =~= before + line@.subrange(cursor as int, b as int) + line@.subrange(
                                ms as int,
                                t.end as int,
                            ));
                            cursor = close + 1;
                        }
                    },
                    None => {},
                }
            }
        }
        k = k + 1;
    }
    let rest = text::slice_range(line, cursor, line.len());
    text::push_all(&mut out, rest.as_slice());
    out
}

/// The pieces `split_inclusive('\n')` cuts `s` into from `i`: each line with its
/// newline, then any unterminated tail.
pub open spec fn segments_from(s: Seq<char>, i: int) -> Seq<Seq<char>>
    decreases s.len() - i,
{
    if i < 0 || i >= s.len() {
        Seq::empty()
    } else {
        match text::find_from(s, seq!['\n'], i) {
            Some(j) => if i <= j < s.len() {
                seq![s.subrange(i, j + 1)] + segments_from(s, j + 1)
            } else {
                Seq::empty()
            },
            None => seq![s.subrange(i, s.len() as int)],
        }
    }
}

/// A body with the link wrappers of every line flattened.
pub open spec fn flatten_body_from(g: grammar::GrammarV, s: Seq<char>, marker: Seq<char>, i: int) -> Seq<char>
    decreases s.len() - i,
{
    if i < 0 || i >= s.len() {
        Seq::empty()
    } else {
        match text::find_from(s, seq!['\n'], i) {
            Some(j) => if i <= j < s.len() {
                flatten_line(g, s.subrange(i, j + 1), marker) + flatten_body_from(g, s, marker, j + 1)
            } else {
                Seq::empty()
            },
            None => flatten_line(g, s.subrange(i, s.len() as int), marker),
        }
    }
}

pub open spec fn flatten_body(g: grammar::GrammarV, s: Seq<char>, marker: Seq<char>) -> Seq<char> {
    flatten_body_from(g, s, marker, 0)
}

/// `](` starts at `i` in `s`.
pub open spec fn link_close_at(s: Seq<char>, i: int) -> bool {
    text::occurs_at(s, seq![']', '('], i)
}

/// `s` holds no `](`: it has no link wrapper to flatten.
pub open spec fn no_link_close(s: Seq<char>) -> bool {
    forall|i: int| !#[trigger] link_close_at(s, i)
}

proof fn lemma_flatten_upto_plain(s: Seq<char>, ts: Seq<grammar::TokenV>, marker: Seq<char>, k: int)
    requires
        no_link_close(s),
    ensures
        flatten_upto(s, ts, marker, k) == (Seq::<char>::empty(), 0int),
    decreases k,
{
    if 0 < k <= ts.len() {
        lemma_flatten_upto_plain(s, ts, marker, k - 1);
        assert(!link_close_at(s, ts[k - 1].end));
    }
}

/// A line without `](` comes out of flattening as it went in.
pub proof fn lemma_flatten_line_plain(g: grammar::GrammarV, s: Seq<char>, marker: Seq<char>)
    requires
        no_link_close(s),
    ensures
        flatten_line(g, s, marker) == s,
{
    let ts = grammar::line_tokens(g, s);
    lemma_flatten_upto_plain(s, ts, marker, ts.len() as int);
    assert(s.subrange(0, s.len() as int) =~= s);
    assert(Seq::<char>::empty() + s =~= s);
}

proof fn lemma_flatten_body_from_plain(g: grammar::GrammarV, s: Seq<char>, marker: Seq<char>, i: int)
    requires
        no_link_close(s),
        0 <= i,
    ensures
        flatten_body_from(g, s, marker, i) == if i < s.len() { s.subrange(i, s.len() as int) } else { Seq::<char>::empty() },
    decreases s.len() - i,
{
    if i < s.len() {
        text::lemma_find_from_bounds(s, seq!['\n'], i);
        match text::find_from(s, seq!['\n'], i) {
            Some(j) => {
                let seg = s.subrange(i, j + 1);
                assert(no_link_close(seg)) by {
                    assert forall|m: int| !#[trigger] link_close_at(seg, m) by {
                        if link_close_at(seg, m) {
                            assert(s.subrange(i + m, i + m + 2) =~= seg.subrange(m, m + 2));
                            assert(link_close_at(s, i + m));
                        }
                    }
                }
                lemma_flatten_line_plain(g, seg, marker);
                lemma_flatten_body_from_plain(g, s, marker, j + 1);
                assert(seg + (if j + 1 < s.len() { s.subrange(j + 1, s.len() as int) } else { Seq::<char>::empty() })
                    =~= s.subrange(i, s.len() as int));
            },
            None => {
                let seg = s.subrange(i, s.len() as int);
                assert(no_link_close(seg)) by {
                    assert forall|m: int| !#[trigger] link_close_at(seg, m) by {
                        if link_close_at(seg, m) {
                            assert(s.subrange(i + m, i + m + 2) =~= seg.subrange(m, m + 2));
                            assert(link_close_at(s, i + m));
                        }
                    }
                }
                lemma_flatten_line_plain(g, seg, marker);
            },
        }
    }
}

/// Flattening touches only link wrappers: a body without `](` (ordinary text, bare
/// citations) comes out exactly as it went in.
pub proof fn lemma_flatten_body_plain(g: grammar::GrammarV, s: Seq<char>, marker: Seq<char>)
    requires
        no_link_close(s),
    ensures
        flatten_body(g, s, marker) == s,
{
    lemma_flatten_body_from_plain(g, s, marker, 0);
    assert(s.subrange(0, s.len() as int) =~= s);
}

/// Flattens the `[<marker><citation>](…)` link wrappers of a body, line by line.
pub fn flatten_cross_ref_links(g: &Grammar, body: &str, marker: &str) -> (r: String)
    requires
        g.wf(),
    ensures
        r@ == flatten_body(g@, body@, marker@),
{
    let s = text::chars_of(body);
    let m = text::chars_of(marker);
    let nl = vec!['\n'];
    assert(nl@ =~= seq!['\n']);
    let len = s.len();
    let mut out: Vec<char> = Vec::new();
    let mut i: usize = 0;
    while i < len
        invariant
            g.wf(),
            len == s@.len(),
            s@ == body@,
            m@ == marker@,
            nl@ == seq!['\n'],
            i <= len,
            out@ + flatten_body_from(g@, s@, m@, i as int) == flatten_body(g@, s@, m@),
        decreases len - i,
    {
        let ghost before = out@;
        proof {
            text::lemma_find_from_bounds(s@, nl@, i as int);
        }
        match text::find_seq(s.as_slice(), nl.as_slice(), i) {
            Some(j) => {
                let seg = text::slice_range(s.as_slice(), i, j + 1);
                let f = flatten_line_exec(g, seg.as_slice(), m.as_slice());
                text::push_all(&mut out, f.as_slice());
                i = j + 1;
            },
            None => {
                let seg = text::slice_range(s.as_slice(), i, len);
                let f = flatten_line_exec(g, seg.as_slice(), m.as_slice());
                text::push_all(&mut out, f.as_slice());
                i = len;
                assert(flatten_body_from(g@, s@, m@, i as int) =~= Seq::empty());
            },
        }
    }
    assert(out@ =~= out@ + flatten_body_from(g@, s@, m@, i as int));
    text::string_from_chars(out.as_slice())
}

// ---------------------------------------------------------------- wrapping citations as links

/// What wrapping needs: the project root, grammar, anchor profile, the groups of
/// declarations, the home files that were read, and the file being rewritten.
pub ghost struct WrapCtx {
    pub root: Seq<char>,
    pub g: grammar::GrammarV,
    pub profile: Seq<char>,
    pub gs: Seq<(model::IdV, Seq<model::DeclarationV>)>,
    pub homes: Seq<SourceFile>,
    pub from: Seq<char>,
}

/// The wrap of token `t` given the cursor: `None` to leave it; else the text to
/// emit and the new cursor. An existing `[<marker><citation>](url)` keeps its
/// shape and gets its url re-derived; a bare marked citation becomes one.
pub open spec fn wrap_one(c: WrapCtx, s: Seq<char>, marker: Seq<char>, t: grammar::TokenV, cur: int) -> Option<(Seq<char>, int)> {
    let ms = t.start - marker.len();
    if t.namespace is Some || !text::ends_with(s.subrange(0, t.start), marker)
        || text::spec_inside_inline_code(s, ms) || ms < cur {
        None
    } else {
        match links::link_target(c.root, c.g, c.profile, c.gs, c.homes, c.from, t.id, t.section) {
            None => None,
            Some(target) => {
                let wrapped = ms > 0 && s[ms - 1] == '[' && text::occurs_at(s, seq![']', '('], t.end);
                match text::find_from(s, seq![')'], t.end + 2) {
                    Some(close) if wrapped => Some((s.subrange(cur, t.end + 2) + target, close)),
                    _ => Some(
                        (
                            s.subrange(cur, ms) + seq!['['] + s.subrange(ms, t.end) + seq![']', '(']
                                + target + seq![')'],
                            t.end,
                        ),
                    ),
                }
            },
        }
    }
}

pub open spec fn wrap_upto(c: WrapCtx, s: Seq<char>, ts: Seq<grammar::TokenV>, marker: Seq<char>, k: int) -> (Seq<char>, int)
    decreases k,
{
    if k <= 0 || k > ts.len() {
        (Seq::empty(), 0)
    } else {
        let (out, cur) = wrap_upto(c, s, ts, marker, k - 1);
        match wrap_one(c, s, marker, ts[k - 1], cur) {
            Some((piece, next)) => (out + piece, next),
            None => (out, cur),
        }
    }
}

/// A Markdown line with every resolvable marked citation wrapped as a link.
pub open spec fn wrap_markdown_links(c: WrapCtx, s: Seq<char>, marker: Seq<char>) -> Seq<char> {
    let ts = grammar::line_tokens(c.g, s);
    let (out, cur) = wrap_upto(c, s, ts, marker, ts.len() as int);
    out + s.subrange(cur, s.len() as int)
}

proof fn lemma_wrap_one(c: WrapCtx, s: Seq<char>, marker: Seq<char>, t: grammar::TokenV, cur: int)
    requires
        0 <= cur <= s.len(),
        0 <= t.start < t.end <= s.len(),
    ensures
        wrap_one(c, s, marker, t, cur) matches Some((_, next)) ==> cur <= next <= s.len(),
{
    let ms = t.start - marker.len();
    if !(t.namespace is Some || !text::ends_with(s.subrange(0, t.start), marker)
        || text::spec_inside_inline_code(s, ms) || ms < cur) {
        text::lemma_find_from_bounds(s, seq![')'], t.end + 2);
    }
}

proof fn lemma_wrap_cursor(c: WrapCtx, s: Seq<char>, ts: Seq<grammar::TokenV>, marker: Seq<char>, k: int)
    requires
        grammar::tokens_ordered(ts, 0, s.len() as int),
        0 <= k <= ts.len(),
    ensures
        0 <= wrap_upto(c, s, ts, marker, k).1 <= s.len(),
    decreases k,
{
    if k > 0 {
        lemma_wrap_cursor(c, s, ts, marker, k - 1);
        lemma_wrap_one(c, s, marker, ts[k - 1], wrap_upto(c, s, ts, marker, k - 1).1);
    }
}

pub open spec fn wrap_ctx(config: Config, g: grammar::GrammarV, f: Findings, homes: Seq<SourceFile>, from: Seq<char>) -> WrapCtx {
    WrapCtx {
        root: config.root@,
        g,
        profile: config.cross_ref_anchor_format@,
        gs: groups_view(f.declarations@),
        homes,
        from,
    }
}

/// One token of the wrap: appends what `wrap_one` emits and returns the new cursor.
fn wrap_step(config: &Config, g: &Grammar, f: &Findings, homes: &Vec<SourceFile>, from: &str, line: &[char], marker: &[char], t: &grammar::Token, cursor: usize, out: &mut Vec<char>) -> (next: usize)
    requires
        g.wf(),
        t.start < t.end <= line@.len(),
        cursor <= line@.len(),
    ensures
        match wrap_one(wrap_ctx(*config, g@, *f, homes@, from@), line@, marker@, t@, cursor as int) {
            Some((piece, nx)) => final(out)@ == old(out)@ + piece && next == nx,
            None => final(out)@ == old(out)@ && next == cursor,
        },
{
    let ghost c = wrap_ctx(*config, g@, *f, homes@, from@);
    let ghost before = out@;
    if !(t.namespace.is_none() && text::prefix_ends_with(line, t.start, marker)) {
        return cursor;
    }
    let ms = t.start - marker.len();
    if text::is_inside_inline_code(line, ms) || ms < cursor {
        return cursor;
    }
    let target = match links::markdown_link_target(config, g, f, homes, from, &t.id, &t.section) {
        None => {
            return cursor;
        },
        Some(target) => target,
    };
    let close_open = vec![']', '('];
    let close_paren = vec![')'];
    assert(close_open@ =~= seq![']', '(']);
    assert(close_paren@ =~= seq![')']);
    let wrapped = ms > 0 && line[ms - 1] == '[' && text::matches_at(line, t.end, close_open.as_slice());
    let found = if line.len() >= 2 && t.end <= line.len() - 2 {
        text::find_seq(line, close_paren.as_slice(), t.end + 2)
    } else {
        None
    };
    proof {
        if !(line@.len() >= 2 && t.end <= line@.len() - 2) {
            assert(text::find_from(line@, seq![')'], t.end + 2) is None);
        }
    }
    match found {
        Some(close) if wrapped => {
            let pre = text::slice_range(line, cursor, t.end + 2);
            text::push_all(out, pre.as_slice());
            text::push_all(out, target.as_slice());
            assert(out@ =~= before + (line@.subrange(cursor as int, t.end + 2) + target@));
            close
        },
        _ => {
            let pre = text::slice_range(line, cursor, ms);
            text::push_all(out, pre.as_slice());
            out.push('[');
            let cite = text::slice_range(line, ms, t.end);
            text::push_all(out, cite.as_slice());
            out.push(']');
            out.push('(');
            text::push_all(out, target.as_slice());
            out.push(')');
            assert(out@ =~= before + (line@.subrange(cursor as int, ms as int) + seq!['['] + line@.subrange(
                ms as int,
                t.end as int,
            ) + seq![']', '('] + target@ + seq![')']));
            t.end
        },
    }
}

/// Wraps each resolvable marked citation of a Markdown line as a link.
pub fn wrap_markdown_links_exec(config: &Config, g: &Grammar, f: &Findings, homes: &Vec<SourceFile>, from: &str, line: &[char], marker: &[char]) -> (r: Vec<char>)
    requires
        g.wf(),
    ensures
        r@ == wrap_markdown_links(wrap_ctx(*config, g@, *f, homes@, from@), line@, marker@),
{
    let ghost c = wrap_ctx(*config, g@, *f, homes@, from@);
    let ts = g.line_tokens(line);
    let ghost tv = grammar::line_tokens(g@, line@);
    proof {
        grammar::lemma_tokens_ordered(g@, line@, 0);
    }
    let mut out: Vec<char> = Vec::new();
    let mut cursor: usize = 0;
    let mut k: usize = 0;
    while k < ts.len()
        invariant
            k <= ts@.len(),
            g.wf(),
            c == wrap_ctx(*config, g@, *f, homes@, from@),
            tv == grammar::line_tokens(g@, line@),
            grammar::token_views(ts@) == tv,
            grammar::tokens_ordered(tv, 0, line@.len() as int),
            cursor <= line@.len(),
            (out@, cursor as int) == wrap_upto(c, line@, tv, marker@, k as int),
        decreases ts@.len() - k,
    {
        let t = &ts[k];
        assert(tv[k as int] == t@);
        assert(0 <= tv[k as int].start < tv[k as int].end <= line@.len());
        proof {
            lemma_wrap_one(c, line@, marker@, t@, cursor as int);
        }
        cursor = wrap_step(config, g, f, homes, from, line, marker, t, cursor, &mut out);
        k = k + 1;
    }
    let rest = text::slice_range(line, cursor, line.len());
    text::push_all(&mut out, rest.as_slice());
    out
}

// ---------------------------------------------------------------- one line, one file

/// The most significant rewrite that changed a line.
#[derive(Clone, Copy, PartialEq, Eq, Structural, Debug)]
pub enum FmtChange {
    Trigger,
    Bare,
    Link,
    Unchanged,
}

impl FmtChange {
    /// The label `fmt` reports a change under.
    pub fn label(self) -> (r: String)
        ensures
            r@ == fmt_label(self),
    {
        match self {
            FmtChange::Trigger => String::from_str("trigger \u{2192} marker"),
            FmtChange::Bare => String::from_str("bare \u{2192} marker"),
            FmtChange::Link => String::from_str("markdown link"),
            FmtChange::Unchanged => String::new(),
        }
    }
}

pub open spec fn fmt_label(c: FmtChange) -> Seq<char> {
    match c {
        FmtChange::Trigger => "trigger \u{2192} marker"@,
        FmtChange::Bare => "bare \u{2192} marker"@,
        FmtChange::Link => "markdown link"@,
        FmtChange::Unchanged => Seq::empty(),
    }
}

/// Which rewrites a `fmt` run applies.
pub struct FmtOpts {
    pub add_marker: bool,
    pub cross_refs: bool,
}

/// One line after the `fmt` rewrites, in order: triggers, then (with `--marker`)
/// bare tokens, then (with `--cross-refs`, Markdown only, when findings are given)
/// link wrapping; with the most significant rewrite that changed it.
pub open spec fn fmt_line(config: Config, g: grammar::GrammarV, f: Option<Findings>, homes: Seq<SourceFile>, from: Seq<char>, s: Seq<char>, is_md: bool, add_marker: bool, cross_refs: bool) -> (Seq<char>, FmtChange) {
    let marker = config.marker@;
    let triggered = replace_trigger(g, s, config.trigger@, marker, is_md);
    let marked = if add_marker {
        add_markers(g, triggered, marker, is_md)
    } else {
        triggered
    };
    let last = match f {
        Some(fs) => if cross_refs && is_md {
            wrap_markdown_links(wrap_ctx(config, g, fs, homes, from), marked, marker)
        } else {
            marked
        },
        None => marked,
    };
    let change = if triggered != s {
        FmtChange::Trigger
    } else if marked != triggered {
        FmtChange::Bare
    } else if last != marked {
        FmtChange::Link
    } else {
        FmtChange::Unchanged
    };
    (last, change)
}

pub fn fmt_line_exec(config: &Config, g: &Grammar, f: Option<&Findings>, homes: &Vec<SourceFile>, from: &str, line: &[char], is_md: bool, opts: &FmtOpts) -> (r: (Vec<char>, FmtChange))
    requires
        g.wf(),
        config.trigger@.len() > 0,
    ensures
        (r.0@, r.1) == fmt_line(
            *config,
            g@,
            match f {
                Some(x) => Some(*x),
                None => None,
            },
            homes@,
            from@,
            line@,
            is_md,
            opts.add_marker,
            opts.cross_refs,
        ),
{
    let marker = text::chars_of(config.marker.as_str());
    let trig = text::chars_of(config.trigger.as_str());
    let triggered = replace_trigger_exec(g, line, trig.as_slice(), marker.as_slice(), is_md);
    let marked = if opts.add_marker {
        add_markers_exec(g, triggered.as_slice(), marker.as_slice(), is_md)
    } else {
        triggered.clone()
    };
    let last = match f {
        Some(fs) => if opts.cross_refs && is_md {
            wrap_markdown_links_exec(config, g, fs, homes, from, marked.as_slice(), marker.as_slice())
        } else {
            marked.clone()
        },
        None => marked.clone(),
    };
    let change = if !crate::order::chars_equal(triggered.as_slice(), line) {
        FmtChange::Trigger
    } else if !crate::order::chars_equal(marked.as_slice(), triggered.as_slice()) {
        FmtChange::Bare
    } else if !crate::order::chars_equal(last.as_slice(), marked.as_slice()) {
        FmtChange::Link
    } else {
        FmtChange::Unchanged
    };
    (last, change)
}

/// The state of `fmt` over a file's lines: inside a fence or not, the lines
/// written so far, and the changed lines (1-based) with their change.
pub ghost struct FmtState {
    pub in_fence: bool,
    pub out: Seq<Seq<char>>,
    pub changes: Seq<(int, FmtChange)>,
}

/// The first `k` lines of a file through `fmt`: fence lines toggle the fence
/// (Markdown), fenced lines and declaration headings are kept, the rest rewritten.
pub open spec fn fmt_upto(config: Config, g: grammar::GrammarV, f: Option<Findings>, homes: Seq<SourceFile>, from: Seq<char>, is_md: bool, add_marker: bool, cross_refs: bool, lines: Seq<Seq<char>>, k: int) -> FmtState
    decreases k,
{
    if k <= 0 || k > lines.len() {
        FmtState { in_fence: false, out: Seq::empty(), changes: Seq::empty() }
    } else {
        let st = fmt_upto(config, g, f, homes, from, is_md, add_marker, cross_refs, lines, k - 1);
        let line = lines[k - 1];
        let trimmed = text::trim_start(line);
        if is_md && (text::starts_with(trimmed, scanner::fence_a()) || text::starts_with(trimmed, scanner::fence_b())) {
            FmtState { in_fence: !st.in_fence, out: st.out.push(line), ..st }
        } else if st.in_fence || grammar::declaration_at(g, line, model::str_views(config.comment_prefixes@), is_md) is Some {
            FmtState { out: st.out.push(line), ..st }
        } else {
            let (nl, change) = fmt_line(config, g, f, homes, from, line, is_md, add_marker, cross_refs);
            FmtState {
                out: st.out.push(nl),
                changes: if nl != line {
                    st.changes.push((k, change))
                } else {
                    st.changes
                },
                ..st
            }
        }
    }
}

/// Lines joined with `\n`.
pub open spec fn join_lines(ls: Seq<Seq<char>>) -> Seq<char>
    decreases ls.len(),
{
    if ls.len() == 0 {
        Seq::empty()
    } else if ls.len() == 1 {
        ls[0]
    } else {
        join_lines(ls.drop_last()) + seq!['\n'] + ls.last()
    }
}

/// A file's text after `fmt`: the rewritten lines joined with `\n`, with a final
/// newline when the original had one; and the changed lines.
pub open spec fn fmt_text(config: Config, g: grammar::GrammarV, f: Option<Findings>, homes: Seq<SourceFile>, from: Seq<char>, is_md: bool, add_marker: bool, cross_refs: bool, t: Seq<char>) -> (Seq<char>, Seq<(int, FmtChange)>) {
    let lines = text::spec_lines(t);
    let st = fmt_upto(config, g, f, homes, from, is_md, add_marker, cross_refs, lines, lines.len() as int);
    (
        join_lines(st.out) + if text::ends_with(t, seq!['\n']) {
            seq!['\n']
        } else {
            Seq::empty()
        },
        st.changes,
    )
}

/// Rewrites one file's text; returns the new text and the changed lines.
pub fn fmt_file(config: &Config, g: &Grammar, f: Option<&Findings>, homes: &Vec<SourceFile>, path: &str, content: &str, opts: &FmtOpts) -> (r: (String, Vec<(usize, FmtChange)>))
    requires
        g.wf(),
        config.trigger@.len() > 0,
    ensures
        ({
            let ff = match f {
                Some(x) => Some(*x),
                None => None,
            };
            let (t, ch) = fmt_text(*config, g@, ff, homes@, path@, scanner::extension(path@) == Some(scanner::md_ext()), opts.add_marker, opts.cross_refs, content@);
            &&& r.0@ == t
            &&& Seq::new(r.1@.len(), |i: int| (r.1@[i].0 as int, r.1@[i].1)) == ch
        }),
{
    let ghost ff = match f {
        Some(x) => Some(*x),
        None => None,
    };
    let pv = text::chars_of(path);
    let md = vec!['m', 'd'];
    assert(md@ =~= scanner::md_ext());
    let is_md = scanner::has_extension(pv.as_slice(), md.as_slice());
    let prefixes = scanner::chars_list(&config.comment_prefixes);
    let tv = text::chars_of(content);
    let lines = text::split_lines(tv.as_slice());
    let ghost ls = text::spec_lines(content@);
    let fa = vec!['`', '`', '`'];
    let fb = vec!['~', '~', '~'];
    assert(fa@ =~= scanner::fence_a());
    assert(fb@ =~= scanner::fence_b());
    let mut in_fence = false;
    let mut out: Vec<char> = Vec::new();
    let mut changes: Vec<(usize, FmtChange)> = Vec::new();
    let ghost mut outs: Seq<Seq<char>> = Seq::empty();
    let mut k: usize = 0;
    while k < lines.len()
        invariant
            k <= lines@.len(),
            g.wf(),
            config.trigger@.len() > 0,
            text::views(lines@) == ls,
            ls == text::spec_lines(content@),
            fa@ == scanner::fence_a(),
            fb@ == scanner::fence_b(),
            text::views(prefixes@) == model::str_views(config.comment_prefixes@),
            ff == match f {
                Some(x) => Some(*x),
                None => None,
            },
            ({
                let st = fmt_upto(*config, g@, ff, homes@, path@, is_md, opts.add_marker, opts.cross_refs, ls, k as int);
                &&& st.in_fence == in_fence
                &&& st.out == outs
                &&& Seq::new(changes@.len(), |i: int| (changes@[i].0 as int, changes@[i].1)) == st.changes
            }),
            out@ == join_lines(outs),
            outs.len() == k,
        decreases lines@.len() - k,
    {
        let ghost st = fmt_upto(*config, g@, ff, homes@, path@, is_md, opts.add_marker, opts.cross_refs, ls, k as int);
        let ghost cv = Seq::new(changes@.len(), |i: int| (changes@[i].0 as int, changes@[i].1));
        let line = &lines[k];
        assert(ls[k as int] == line@);
        let t = scanner::trim_start_chars(line.as_slice());
        let new_line: Vec<char>;
        if is_md && (text::matches_at(t.as_slice(), 0, fa.as_slice()) || text::matches_at(t.as_slice(), 0, fb.as_slice())) {
            in_fence = !in_fence;
            new_line = line.clone();
        } else if in_fence || g.declaration_at(line.as_slice(), &prefixes, is_md).is_some() {
            new_line = line.clone();
        } else {
            let (nl, change) = fmt_line_exec(config, g, f, homes, path, line.as_slice(), is_md, opts);
            if !crate::order::chars_equal(nl.as_slice(), line.as_slice()) {
                changes.push((k + 1, change));
                assert(Seq::new(changes@.len(), |i: int| (changes@[i].0 as int, changes@[i].1)) =~= cv.push(
                    ((k + 1) as int, change),
                ));
            }
            new_line = nl;
        }
        if k > 0 {
            out.push('\n');
        }
        let ghost before = out@;
        text::push_all(&mut out, new_line.as_slice());
        proof {
            let nouts = outs.push(new_line@);
            if k > 0 {
                assert(nouts.drop_last() =~= outs);
                assert(out@ =~= join_lines(outs) + seq!['\n'] + new_line@);
            } else {
                assert(out@ =~= new_line@);
            }
            outs = nouts;
        }
        k = k + 1;
    }
    let nl1 = vec!['\n'];
    assert(nl1@ =~= seq!['\n']);
    let ends = text::prefix_ends_with(tv.as_slice(), tv.len(), nl1.as_slice());
    assert(tv@.subrange(0, tv@.len() as int) =~= tv@);
    if ends {
        out.push('\n');
    }
    (text::string_from_chars(out.as_slice()), changes)
}

} // verus!
