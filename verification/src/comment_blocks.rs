//! Inline citation sites: the source-comment blocks that hold citations, and
//! whether such a block says anything besides its citations.
//!
//! Outside Markdown, a run of lines is one comment block when:
//! - each line starts (after whitespace) with the same line-comment marker: `///`,
//!   `//!` or `//` when `//` is a configured comment prefix, else the longest
//!   configured prefix other than `//`, `*` and `/*` (the first such on a tie);
//! - it opens with `/*` and runs to the first line that holds `*/`;
//! - in Python, it opens with a triple quote and runs to the line that closes
//!   it (on the opening line, a second one after the opening quote).
//!
//! A block that declares an ID is no citation site. Otherwise every line of it
//! carries the same site: its first and last line (1-based), the length in UTF-8
//! bytes of its widest line, and
//! whether some line still holds text once the spans of its citations and its
//! comment markers are removed.
use vstd::prelude::*;
use crate::grammar::{self, Grammar};
use crate::model::{self, InlineCitationSite};
use crate::scanner::{self, LineCtx, ScanCtx};
use crate::text::{self, chars_of};

verus! {

// ---------------------------------------------------------------- comment markers

/// The comment markers a shown source line may start with, longest first where one
/// is a prefix of another.
pub open spec fn comment_tokens() -> Seq<Seq<char>> {
    seq![
        "/**"@,
        "/*"@,
        "///"@,
        "//!"@,
        "//"@,
        "*/"@,
        "#"@,
        ";"@,
        "--"@,
        "*"@,
        "\"\"\""@,
        "'''"@,
    ]
}

/// The first comment marker (in list order, from `k`) that `t` starts with.
pub open spec fn first_token_from(t: Seq<char>, k: int) -> Option<Seq<char>>
    decreases comment_tokens().len() - k,
{
    if k < 0 || k >= comment_tokens().len() {
        None
    } else if text::starts_with(t, comment_tokens()[k]) {
        Some(comment_tokens()[k])
    } else {
        first_token_from(t, k + 1)
    }
}

/// A source line as prose: leading whitespace and the first comment marker (with
/// one space after it) removed, trailing whitespace and a closing `*/`, `"""` or
/// `'''` removed.
pub open spec fn strip_comment_tokens(line: Seq<char>) -> Seq<char> {
    let body = text::trim_start(line);
    let rest = match first_token_from(body, 0) {
        Some(tok) => {
            let after = body.subrange(tok.len() as int, body.len() as int);
            if after.len() > 0 && after[0] == ' ' {
                after.drop_first()
            } else {
                after
            }
        },
        None => body,
    };
    let t = text::trim_end(rest);
    if text::ends_with(t, "*/"@) {
        t.subrange(0, t.len() - 2)
    } else if text::ends_with(t, "\"\"\""@) {
        t.subrange(0, t.len() - 3)
    } else if text::ends_with(t, "'''"@) {
        t.subrange(0, t.len() - 3)
    } else {
        t
    }
}


fn comment_token_list() -> (r: Vec<Vec<char>>)
    ensures
        text::views(r@) == comment_tokens(),
{
    let r = vec![
        chars_of("/**"),
        chars_of("/*"),
        chars_of("///"),
        chars_of("//!"),
        chars_of("//"),
        chars_of("*/"),
        chars_of("#"),
        chars_of(";"),
        chars_of("--"),
        chars_of("*"),
        chars_of("\"\"\""),
        chars_of("'''"),
    ];
    assert(text::views(r@) =~= comment_tokens());
    r
}

pub(crate) fn first_token_exec(t: &[char]) -> (r: Option<Vec<char>>)
    ensures
        match r {
            Some(v) => first_token_from(t@, 0) == Some(v@),
            None => first_token_from(t@, 0) is None,
        },
{
    let toks = comment_token_list();
    let mut k: usize = 0;
    while k < toks.len()
        invariant
            k <= toks@.len(),
            text::views(toks@) == comment_tokens(),
            first_token_from(t@, 0) == first_token_from(t@, k as int),
        decreases toks@.len() - k,
    {
        assert(comment_tokens()[k as int] == toks@[k as int]@);
        if text::matches_at(t, 0, toks[k].as_slice()) {
            return Some(toks[k].clone());
        }
        k = k + 1;
    }
    None
}

pub fn strip_comment_tokens_exec(line: &[char]) -> (r: Vec<char>)
    ensures
        r@ == strip_comment_tokens(line@),
{
    let body = scanner::trim_start_chars(line);
    let rest: Vec<char> = match first_token_exec(body.as_slice()) {
        Some(tok) => {
            proof {
                lemma_first_token_len(body@, 0);
            }
            let after = text::slice_range(body.as_slice(), tok.len(), body.len());
            if after.len() > 0 && after[0] == ' ' {
                let d = text::slice_range(after.as_slice(), 1, after.len());
                assert(d@ =~= after@.drop_first());
                d
            } else {
                after
            }
        },
        None => body,
    };
    let e = text::trim_end_index(rest.as_slice(), rest.len());
    let t = text::slice_range(rest.as_slice(), 0, e);
    let c1 = chars_of("*/");
    let c2 = chars_of("\"\"\"");
    let c3 = chars_of("'''");
    proof {
        reveal_strlit("*/");
        reveal_strlit("\"\"\"");
        reveal_strlit("'''");
    }
    let tl = t.len();
    assert(t@.subrange(0, tl as int) =~= t@);
    if text::prefix_ends_with(t.as_slice(), tl, c1.as_slice()) {
        text::slice_range(t.as_slice(), 0, tl - 2)
    } else if text::prefix_ends_with(t.as_slice(), tl, c2.as_slice()) {
        text::slice_range(t.as_slice(), 0, tl - 3)
    } else if text::prefix_ends_with(t.as_slice(), tl, c3.as_slice()) {
        text::slice_range(t.as_slice(), 0, tl - 3)
    } else {
        t
    }
}

proof fn lemma_first_token_len(t: Seq<char>, k: int)
    requires
        0 <= k,
    ensures
        first_token_from(t, k) matches Some(tok) ==> tok.len() <= t.len(),
    decreases comment_tokens().len() - k,
{
    if k < comment_tokens().len() && !text::starts_with(t, comment_tokens()[k]) {
        lemma_first_token_len(t, k + 1);
    }
}


// ---------------------------------------------------------------- comment blocks

/// What opens a comment block.
pub ghost enum BlockKind {
    Line(Seq<char>),
    Block,
    Docstring,
}

/// The quote that opens a Python docstring line, if it opens one.
pub open spec fn docstring_quote(line: Seq<char>) -> Option<Seq<char>> {
    let t = text::trim_start(line);
    if text::starts_with(t, "\"\"\""@) {
        Some("\"\"\""@)
    } else if text::starts_with(t, "'''"@) {
        Some("'''"@)
    } else {
        None
    }
}

/// A configured comment prefix that can open a line-comment block of its own.
pub open spec fn eligible_prefix(p: Seq<char>) -> bool {
    p != ""@ && p != "//"@ && p != "*"@ && p != "/*"@
}

/// The longest eligible prefix among the first `k` that `t` starts with; the
/// earliest one on a tie.
pub open spec fn longest_prefix(ps: Seq<Seq<char>>, t: Seq<char>, k: int) -> Option<Seq<char>>
    decreases k,
{
    if k <= 0 || k > ps.len() {
        None
    } else {
        let best = longest_prefix(ps, t, k - 1);
        let p = ps[k - 1];
        if eligible_prefix(p) && text::starts_with(t, p) && (match best {
            Some(b) => p.len() > b.len(),
            None => true,
        }) {
            Some(p)
        } else {
            best
        }
    }
}

/// The line-comment marker a trimmed line starts with.
pub open spec fn line_comment_marker(t: Seq<char>, ps: Seq<Seq<char>>) -> Option<Seq<char>> {
    if ps.contains("//"@) && text::starts_with(t, "///"@) {
        Some("///"@)
    } else if ps.contains("//"@) && text::starts_with(t, "//!"@) {
        Some("//!"@)
    } else if ps.contains("//"@) && text::starts_with(t, "//"@) {
        Some("//"@)
    } else {
        longest_prefix(ps, t, ps.len() as int)
    }
}

/// The kind of comment block a line opens or continues, if any.
pub open spec fn comment_block_kind(line: Seq<char>, is_py: bool, ps: Seq<Seq<char>>) -> Option<BlockKind> {
    let t = text::trim_start(line);
    if t.len() == 0 {
        None
    } else if is_py && docstring_quote(line) is Some {
        Some(BlockKind::Docstring)
    } else if text::starts_with(t, "/*"@) {
        Some(BlockKind::Block)
    } else {
        match line_comment_marker(t, ps) {
            Some(m) => Some(BlockKind::Line(m)),
            None => None,
        }
    }
}

pub open spec fn contains(s: Seq<char>, p: Seq<char>) -> bool {
    text::find_from(s, p, 0) is Some
}

/// Whether a docstring line closes `quote` (on the opening line, after the
/// opening quote).
pub open spec fn docstring_closes(line: Seq<char>, quote: Seq<char>, opening: bool) -> bool {
    let t = text::trim_start(line);
    let search = if opening && text::starts_with(t, quote) {
        t.subrange(quote.len() as int, t.len() as int)
    } else {
        t
    };
    contains(search, quote)
}

/// The last line of a line-comment run with marker `m`, looking from `j`.
pub open spec fn line_run_end(ls: Seq<Seq<char>>, is_py: bool, ps: Seq<Seq<char>>, m: Seq<char>, j: int) -> int
    decreases ls.len() - j,
{
    if j < 0 || j >= ls.len() || comment_block_kind(ls[j], is_py, ps) != Some(BlockKind::Line(m)) {
        j - 1
    } else {
        line_run_end(ls, is_py, ps, m, j + 1)
    }
}

/// The line that closes a `/*` block, looking from `j` (the last line if none does).
pub open spec fn block_close_end(ls: Seq<Seq<char>>, j: int) -> int
    decreases ls.len() - j,
{
    if j < 0 || j + 1 >= ls.len() || contains(ls[j], "*/"@) {
        j
    } else {
        block_close_end(ls, j + 1)
    }
}

/// The line that closes a docstring opened at `start`, looking from `j`.
pub open spec fn doc_close_end(ls: Seq<Seq<char>>, q: Seq<char>, start: int, j: int) -> int
    decreases ls.len() - j,
{
    if j < 0 || j + 1 >= ls.len() || docstring_closes(ls[j], q, j == start) {
        j
    } else {
        doc_close_end(ls, q, start, j + 1)
    }
}

/// The last line of the block of kind `k` that opens at `i`.
pub open spec fn block_end(ls: Seq<Seq<char>>, is_py: bool, ps: Seq<Seq<char>>, i: int, k: BlockKind) -> int {
    match k {
        BlockKind::Line(m) => line_run_end(ls, is_py, ps, m, i + 1),
        BlockKind::Block => block_close_end(ls, i),
        BlockKind::Docstring => doc_close_end(
            ls,
            match docstring_quote(ls[i]) {
                Some(q) => q,
                None => "\"\"\""@,
            },
            i,
            i,
        ),
    }
}

/// Whether a line of a block declares an ID.
pub open spec fn line_declares(g: grammar::GrammarV, ps: Seq<Seq<char>>, l: Seq<char>, in_doc: bool) -> bool {
    grammar::declaration_at(g, if in_doc { text::trim_start(l) } else { l }, ps, in_doc) is Some
}

/// Whether a line in `[a, b)` declares an ID.
pub open spec fn block_declares(g: grammar::GrammarV, ps: Seq<Seq<char>>, ls: Seq<Seq<char>>, a: int, b: int, in_doc: bool) -> bool
    decreases b - a,
{
    if b <= a || a < 0 || b > ls.len() {
        false
    } else {
        block_declares(g, ps, ls, a, b - 1, in_doc) || line_declares(g, ps, ls[b - 1], in_doc)
    }
}

/// The widest line in `[a, b)`.
pub open spec fn max_len(ls: Seq<Seq<char>>, a: int, b: int) -> nat
    decreases b - a,
{
    if b <= a || a < 0 || b > ls.len() {
        0
    } else {
        let m = max_len(ls, a, b - 1);
        if text::byte_len(ls[b - 1]) > m {
            text::byte_len(ls[b - 1]) as nat
        } else {
            m
        }
    }
}

// ---------------------------------------------------------------- notes

/// The byte spans `[column - 1, column - 1 + bytes of text)` of citations.
pub open spec fn spans(cs: Seq<model::CitationV>) -> Seq<(int, int)> {
    Seq::new(cs.len(), |i: int| ((cs[i].column - 1) as int, (cs[i].column - 1) + text::byte_len(cs[i].text)))
}

pub open spec fn covered(sp: Seq<(int, int)>, i: int) -> bool {
    exists|k: int| 0 <= k < sp.len() && #[trigger] sp[k].0 <= i && i < sp[k].1
}

/// The first `k` characters of a line whose byte offset no span covers.
pub open spec fn uncovered(l: Seq<char>, sp: Seq<(int, int)>, k: int) -> Seq<char>
    decreases k,
{
    if k <= 0 || k > l.len() {
        Seq::empty()
    } else if covered(sp, text::byte_len(l.subrange(0, k - 1)) as int) {
        uncovered(l, sp, k - 1)
    } else {
        uncovered(l, sp, k - 1).push(l[k - 1])
    }
}

/// A line without its citations (as the scan reads them) and its comment markers.
pub open spec fn note_text(c: ScanCtx, l: Seq<char>, n: nat) -> Seq<char> {
    let sp = spans(scanner::line_citations(c, l, n, None));
    strip_comment_tokens(uncovered(l, sp, l.len() as int))
}

/// Whether a line in `[a, b)` holds a note: text besides citations and markers.
pub open spec fn block_has_note(c: ScanCtx, ls: Seq<Seq<char>>, a: int, b: int) -> bool
    decreases b - a,
{
    if b <= a || a < 0 || b > ls.len() {
        false
    } else {
        block_has_note(c, ls, a, b - 1) || text::trim(note_text(c, ls[b - 1], b as nat)).len() > 0
    }
}

// ---------------------------------------------------------------- sites

/// The last line of the block opening at `i`, kept within `[i, |ls|)`.
pub open spec fn clamped_end(c: ScanCtx, ls: Seq<Seq<char>>, i: int, k: BlockKind) -> int {
    let e = block_end(ls, c.is_py, c.prefixes, i, k);
    if e < i {
        i
    } else if e >= ls.len() {
        ls.len() - 1
    } else {
        e
    }
}

/// The site of the block `[i, e]`, unless it declares an ID.
pub open spec fn block_site(c: ScanCtx, ls: Seq<Seq<char>>, i: int, e: int, k: BlockKind) -> Option<InlineCitationSite> {
    if block_declares(c.g, c.prefixes, ls, i, e + 1, k is Docstring) {
        None
    } else {
        Some(
            InlineCitationSite {
                first_line: (i + 1) as usize,
                last_line: (e + 1) as usize,
                max_columns: max_len(ls, i, e + 1) as usize,
                has_note: block_has_note(c, ls, i, e + 1),
            },
        )
    }
}

/// The site of each line from `i` on.
pub open spec fn sites_from(c: ScanCtx, ls: Seq<Seq<char>>, i: int) -> Seq<Option<InlineCitationSite>>
    decreases ls.len() - i,
{
    if i < 0 || i >= ls.len() {
        Seq::empty()
    } else {
        match comment_block_kind(ls[i], c.is_py, c.prefixes) {
            None => seq![None] + sites_from(c, ls, i + 1),
            Some(k) => {
                let e = clamped_end(c, ls, i, k);
                let v = block_site(c, ls, i, e, k);
                Seq::new((e - i + 1) as nat, |j: int| v) + sites_from(c, ls, e + 1)
            },
        }
    }
}

/// The site of each line of a file: none in Markdown.
pub open spec fn inline_sites(c: ScanCtx, t: Seq<char>) -> Seq<Option<InlineCitationSite>> {
    let ls = text::spec_lines(t);
    if c.is_md {
        Seq::new(ls.len(), |j: int| None)
    } else {
        sites_from(c, ls, 0)
    }
}

/// The site of 1-based line `n`.
pub open spec fn site_at(sites: Seq<Option<InlineCitationSite>>, n: usize) -> Option<InlineCitationSite> {
    if 1 <= n && n <= sites.len() {
        sites[n - 1]
    } else {
        None
    }
}

// ---------------------------------------------------------------- executable side

/// What opens a comment block, as the scan computes it.
pub enum CommentBlock {
    Line(Vec<char>),
    Block,
    Docstring,
}

pub open spec fn block_view(b: CommentBlock) -> BlockKind {
    match b {
        CommentBlock::Line(m) => BlockKind::Line(m@),
        CommentBlock::Block => BlockKind::Block,
        CommentBlock::Docstring => BlockKind::Docstring,
    }
}

fn same_text(p: &[char], s: &str) -> (r: bool)
    ensures
        r == (p@ == s@),
{
    let v = chars_of(s);
    crate::order::chars_equal(p, v.as_slice())
}

fn docstring_quote_exec(line: &[char]) -> (r: Option<Vec<char>>)
    ensures
        match r {
            Some(q) => docstring_quote(line@) == Some(q@),
            None => docstring_quote(line@) is None,
        },
{
    let t = scanner::trim_start_chars(line);
    let a = chars_of("\"\"\"");
    let b = chars_of("'''");
    if text::matches_at(t.as_slice(), 0, a.as_slice()) {
        Some(a)
    } else if text::matches_at(t.as_slice(), 0, b.as_slice()) {
        Some(b)
    } else {
        None
    }
}

fn contains_exec(s: &[char], p: &[char]) -> (r: bool)
    ensures
        r == contains(s@, p@),
{
    text::find_seq(s, p, 0).is_some()
}

fn eligible_exec(p: &[char]) -> (r: bool)
    ensures
        r == eligible_prefix(p@),
{
    !same_text(p, "") && !same_text(p, "//") && !same_text(p, "*") && !same_text(p, "/*")
}

fn longest_prefix_exec(ps: &Vec<Vec<char>>, t: &[char]) -> (r: Option<Vec<char>>)
    ensures
        match r {
            Some(m) => longest_prefix(text::views(ps@), t@, ps@.len() as int) == Some(m@),
            None => longest_prefix(text::views(ps@), t@, ps@.len() as int) is None,
        },
{
    let ghost pv = text::views(ps@);
    let mut best: Option<usize> = None;
    let mut k: usize = 0;
    while k < ps.len()
        invariant
            k <= ps@.len(),
            pv == text::views(ps@),
            match best {
                Some(b) => b < k && longest_prefix(pv, t@, k as int) == Some(pv[b as int]),
                None => longest_prefix(pv, t@, k as int) is None,
            },
        decreases ps@.len() - k,
    {
        let p = ps[k].as_slice();
        assert(pv[k as int] == ps@[k as int]@);
        let better = match best {
            Some(b) => {
                assert(pv[b as int] == ps@[b as int]@);
                ps[k].len() > ps[b].len()
            },
            None => true,
        };
        if eligible_exec(p) && text::matches_at(t, 0, p) && better {
            best = Some(k);
        }
        k = k + 1;
    }
    match best {
        Some(b) => {
            assert(pv[b as int] == ps@[b as int]@);
            Some(ps[b].clone())
        },
        None => None,
    }
}

fn has_slashes(ps: &Vec<Vec<char>>) -> (r: bool)
    ensures
        r == text::views(ps@).contains("//"@),
{
    let ghost pv = text::views(ps@);
    let mut k: usize = 0;
    while k < ps.len()
        invariant
            k <= ps@.len(),
            pv == text::views(ps@),
            forall|j: int| 0 <= j < k ==> pv[j] != "//"@,
        decreases ps@.len() - k,
    {
        assert(pv[k as int] == ps@[k as int]@);
        if same_text(ps[k].as_slice(), "//") {
            assert(pv[k as int] == "//"@);
            return true;
        }
        k = k + 1;
    }
    false
}

fn line_comment_marker_exec(t: &[char], ps: &Vec<Vec<char>>) -> (r: Option<Vec<char>>)
    ensures
        match r {
            Some(m) => line_comment_marker(t@, text::views(ps@)) == Some(m@),
            None => line_comment_marker(t@, text::views(ps@)) is None,
        },
{
    let slashes = has_slashes(ps);
    let a = chars_of("///");
    let b = chars_of("//!");
    let c = chars_of("//");
    if slashes && text::matches_at(t, 0, a.as_slice()) {
        Some(a)
    } else if slashes && text::matches_at(t, 0, b.as_slice()) {
        Some(b)
    } else if slashes && text::matches_at(t, 0, c.as_slice()) {
        Some(c)
    } else {
        longest_prefix_exec(ps, t)
    }
}

fn comment_block_kind_exec(line: &[char], is_py: bool, ps: &Vec<Vec<char>>) -> (r: Option<CommentBlock>)
    ensures
        match r {
            Some(b) => comment_block_kind(line@, is_py, text::views(ps@)) == Some(block_view(b)),
            None => comment_block_kind(line@, is_py, text::views(ps@)) is None,
        },
{
    let t = scanner::trim_start_chars(line);
    if t.len() == 0 {
        return None;
    }
    if is_py && docstring_quote_exec(line).is_some() {
        return Some(CommentBlock::Docstring);
    }
    let open = chars_of("/*");
    if text::matches_at(t.as_slice(), 0, open.as_slice()) {
        return Some(CommentBlock::Block);
    }
    match line_comment_marker_exec(t.as_slice(), ps) {
        Some(m) => Some(CommentBlock::Line(m)),
        None => None,
    }
}

fn docstring_closes_exec(line: &[char], q: &[char], opening: bool) -> (r: bool)
    ensures
        r == docstring_closes(line@, q@, opening),
{
    let t = scanner::trim_start_chars(line);
    if opening && text::matches_at(t.as_slice(), 0, q) {
        let rest = text::slice_range(t.as_slice(), q.len(), t.len());
        contains_exec(rest.as_slice(), q)
    } else {
        contains_exec(t.as_slice(), q)
    }
}

fn same_line_kind(line: &[char], is_py: bool, ps: &Vec<Vec<char>>, m: &[char]) -> (r: bool)
    ensures
        r == (comment_block_kind(line@, is_py, text::views(ps@)) == Some(BlockKind::Line(m@))),
{
    match comment_block_kind_exec(line, is_py, ps) {
        Some(CommentBlock::Line(m2)) => crate::order::chars_equal(m2.as_slice(), m),
        _ => false,
    }
}

/// The last line of the block that opens at `i`, as `clamped_end` defines it.
fn block_end_exec(g: &Grammar, l: &LineCtx, ls: &Vec<Vec<char>>, i: usize, k: &CommentBlock) -> (r: usize)
    requires
        i < ls@.len(),
    ensures
        r as int == clamped_end(scanner::ctx_view(g, l), text::views(ls@), i as int, block_view(*k)),
        i <= r < ls@.len(),
{
    let ghost lv = text::views(ls@);
    let ghost pv = text::views(l.prefixes@);
    let n = ls.len();
    let e: usize = match k {
        CommentBlock::Line(m) => {
            let mut j: usize = i + 1;
            while j < n && same_line_kind(ls[j].as_slice(), l.is_py, &l.prefixes, m.as_slice())
                invariant
                    i + 1 <= j <= n,
                    n == ls@.len(),
                    lv == text::views(ls@),
                    pv == text::views(l.prefixes@),
                    line_run_end(lv, l.is_py, pv, m@, (i + 1) as int) == line_run_end(lv, l.is_py, pv, m@, j as int),
                decreases n - j,
            {
                assert(lv[j as int] == ls@[j as int]@);
                j = j + 1;
            }
            proof {
                if j < n {
                    assert(lv[j as int] == ls@[j as int]@);
                }
            }
            j - 1
        },
        CommentBlock::Block => {
            let close = chars_of("*/");
            let mut j: usize = i;
            while j + 1 < n && !contains_exec(ls[j].as_slice(), close.as_slice())
                invariant
                    i <= j < n,
                    n == ls@.len(),
                    lv == text::views(ls@),
                    close@ == "*/"@,
                    block_close_end(lv, i as int) == block_close_end(lv, j as int),
                decreases n - j,
            {
                assert(lv[j as int] == ls@[j as int]@);
                j = j + 1;
            }
            proof {
                if j + 1 < n {
                    assert(lv[j as int] == ls@[j as int]@);
                }
            }
            j
        },
        CommentBlock::Docstring => {
            let q = match docstring_quote_exec(ls[i].as_slice()) {
                Some(q) => q,
                None => chars_of("\"\"\""),
            };
            assert(lv[i as int] == ls@[i as int]@);
            let ghost qv = match docstring_quote(lv[i as int]) {
                Some(x) => x,
                None => "\"\"\""@,
            };
            assert(q@ == qv);
            let mut j: usize = i;
            while j + 1 < n && !docstring_closes_exec(ls[j].as_slice(), q.as_slice(), j == i)
                invariant
                    i <= j < n,
                    n == ls@.len(),
                    lv == text::views(ls@),
                    q@ == qv,
                    doc_close_end(lv, qv, i as int, i as int) == doc_close_end(lv, qv, i as int, j as int),
                decreases n - j,
            {
                assert(lv[j as int] == ls@[j as int]@);
                j = j + 1;
            }
            proof {
                if j + 1 < n {
                    assert(lv[j as int] == ls@[j as int]@);
                }
            }
            j
        },
    };
    if e < i {
        i
    } else if e >= n {
        n - 1
    } else {
        e
    }
}

fn block_declares_exec(g: &Grammar, ps: &Vec<Vec<char>>, ls: &Vec<Vec<char>>, a: usize, b: usize, in_doc: bool) -> (r: bool)
    requires
        g.wf(),
        a <= b <= ls@.len(),
    ensures
        r == block_declares(g@, text::views(ps@), text::views(ls@), a as int, b as int, in_doc),
{
    let ghost lv = text::views(ls@);
    let ghost pv = text::views(ps@);
    let mut j: usize = a;
    let mut found = false;
    while j < b
        invariant
            g.wf(),
            a <= j <= b <= ls@.len(),
            lv == text::views(ls@),
            pv == text::views(ps@),
            found == block_declares(g@, pv, lv, a as int, j as int, in_doc),
        decreases b - j,
    {
        assert(lv[j as int] == ls@[j as int]@);
        let hit = if in_doc {
            let t = scanner::trim_start_chars(ls[j].as_slice());
            g.declaration_at(t.as_slice(), ps, true).is_some()
        } else {
            g.declaration_at(ls[j].as_slice(), ps, false).is_some()
        };
        found = found || hit;
        j = j + 1;
    }
    found
}

fn max_len_exec(ls: &Vec<Vec<char>>, a: usize, b: usize) -> (r: usize)
    requires
        a <= b <= ls@.len(),
    ensures
        r as nat == max_len(text::views(ls@), a as int, b as int),
{
    let ghost lv = text::views(ls@);
    let mut m: usize = 0;
    let mut j: usize = a;
    while j < b
        invariant
            a <= j <= b <= ls@.len(),
            lv == text::views(ls@),
            m as nat == max_len(lv, a as int, j as int),
        decreases b - j,
    {
        assert(lv[j as int] == ls@[j as int]@);
        assert(ls@[j as int]@.subrange(0, ls@[j as int]@.len() as int) =~= ls@[j as int]@);
        let w = text::byte_len_exec(ls[j].as_slice(), ls[j].len());
        if w > m {
            m = w;
        }
        j = j + 1;
    }
    m
}

fn covered_exec(cs: &Vec<model::Citation>, lens: &Vec<usize>, idx: usize) -> (r: bool)
    requires
        lens@.len() == cs@.len(),
        forall|k: int| 0 <= k < cs@.len() ==> lens@[k] == text::byte_len(cs@[k]@.text),
    ensures
        r == covered(spans(model::citation_views(cs@)), idx as int),
{
    let ghost sp = spans(model::citation_views(cs@));
    let mut k: usize = 0;
    while k < cs.len()
        invariant
            k <= cs@.len(),
            lens@.len() == cs@.len(),
            forall|j: int| 0 <= j < cs@.len() ==> lens@[j] == text::byte_len(cs@[j]@.text),
            sp == spans(model::citation_views(cs@)),
            forall|j: int| 0 <= j < k ==> !(#[trigger] sp[j].0 <= idx && idx < sp[j].1),
        decreases cs@.len() - k,
    {
        let col = cs[k].column;
        let len = lens[k];
        assert(sp[k as int] == ((col - 1) as int, (col - 1) + len));
        let inside = if col == 0 {
            idx < usize::MAX && idx + 1 < len
        } else {
            col - 1 <= idx && idx - (col - 1) < len
        };
        if inside {
            assert(sp[k as int].0 <= idx && idx < sp[k as int].1);
            return true;
        }
        k = k + 1;
    }
    false
}

fn note_text_exec(g: &Grammar, l: &LineCtx, line: &[char], n: usize) -> (r: Vec<char>)
    requires
        g.wf(),
    ensures
        r@ == note_text(scanner::ctx_view(g, l), line@, n as nat),
{
    let cs = scanner::line_citations_exec(g, l, line, n, &None);
    let ghost cv = model::citation_views(cs@);
    let ghost sp = spans(cv);
    let mut lens: Vec<usize> = Vec::new();
    let mut k: usize = 0;
    while k < cs.len()
        invariant
            k <= cs@.len(),
            lens@.len() == k,
            forall|j: int| 0 <= j < k ==> lens@[j] == text::byte_len(cs@[j]@.text),
        decreases cs@.len() - k,
    {
        let t = chars_of(cs[k].text.as_str());
        assert(t@.subrange(0, t@.len() as int) =~= t@);
        lens.push(text::byte_len_exec(t.as_slice(), t.len()));
        k = k + 1;
    }
    let mut kept: Vec<char> = Vec::new();
    let mut i: usize = 0;
    while i < line.len()
        invariant
            i <= line@.len(),
            lens@.len() == cs@.len(),
            forall|j: int| 0 <= j < cs@.len() ==> lens@[j] == text::byte_len(cs@[j]@.text),
            sp == spans(model::citation_views(cs@)),
            kept@ == uncovered(line@, sp, i as int),
        decreases line@.len() - i,
    {
        let off = text::byte_len_exec(line, i);
        if !covered_exec(&cs, &lens, off) {
            kept.push(line[i]);
        }
        i = i + 1;
    }
    assert(scanner::opt_decl_view(None) == None::<model::DeclarationV>);
    strip_comment_tokens_exec(kept.as_slice())
}

fn block_has_note_exec(g: &Grammar, l: &LineCtx, ls: &Vec<Vec<char>>, a: usize, b: usize) -> (r: bool)
    requires
        g.wf(),
        a <= b <= ls@.len(),
    ensures
        r == block_has_note(scanner::ctx_view(g, l), text::views(ls@), a as int, b as int),
{
    let ghost lv = text::views(ls@);
    let ghost c = scanner::ctx_view(g, l);
    let mut j: usize = a;
    let mut found = false;
    while j < b
        invariant
            g.wf(),
            a <= j <= b <= ls@.len(),
            lv == text::views(ls@),
            c == scanner::ctx_view(g, l),
            found == block_has_note(c, lv, a as int, j as int),
        decreases b - j,
    {
        assert(lv[j as int] == ls@[j as int]@);
        let t = note_text_exec(g, l, ls[j].as_slice(), j + 1);
        let tt = scanner::trim_chars(t.as_slice());
        found = found || tt.len() > 0;
        j = j + 1;
    }
    found
}

/// The site of each line of a file, as `inline_sites` defines it; `lines` are the
/// file's lines and `l` describes the file.
pub fn inline_sites_exec(g: &Grammar, l: &LineCtx, lines: &Vec<Vec<char>>) -> (r: Vec<Option<InlineCitationSite>>)
    requires
        g.wf(),
    ensures
        r@ == (if l.is_md {
            Seq::new(lines@.len(), |j: int| None)
        } else {
            sites_from(scanner::ctx_view(g, l), text::views(lines@), 0)
        }),
{
    let ghost lv = text::views(lines@);
    let ghost c = scanner::ctx_view(g, l);
    let n = lines.len();
    let mut out: Vec<Option<InlineCitationSite>> = Vec::new();
    if l.is_md {
        let mut k: usize = 0;
        while k < n
            invariant
                k <= n,
                out@ =~= Seq::new(k as nat, |j: int| None::<InlineCitationSite>),
            decreases n - k,
        {
            out.push(None);
            k = k + 1;
        }
        return out;
    }
    let mut i: usize = 0;
    while i < n
        invariant
            g.wf(),
            i <= n,
            n == lines@.len(),
            lv == text::views(lines@),
            c == scanner::ctx_view(g, l),
            out@ + sites_from(c, lv, i as int) =~= sites_from(c, lv, 0),
        decreases n - i,
    {
        assert(lv[i as int] == lines@[i as int]@);
        match comment_block_kind_exec(lines[i].as_slice(), l.is_py, &l.prefixes) {
            None => {
                let ghost before = out@;
                out.push(None);
                assert(out@ + sites_from(c, lv, (i + 1) as int) =~= before + sites_from(c, lv, i as int));
                i = i + 1;
            },
            Some(kind) => {
                let e = block_end_exec(g, l, lines, i, &kind);
                let is_doc = match kind {
                    CommentBlock::Docstring => true,
                    _ => false,
                };
                let declares = block_declares_exec(g, &l.prefixes, lines, i, e + 1, is_doc);
                let v = if declares {
                    None
                } else {
                    Some(
                        InlineCitationSite {
                            first_line: i + 1,
                            last_line: e + 1,
                            max_columns: max_len_exec(lines, i, e + 1),
                            has_note: block_has_note_exec(g, l, lines, i, e + 1),
                        },
                    )
                };
                assert(v == block_site(c, lv, i as int, e as int, block_view(kind)));
                let ghost before = out@;
                let mut j: usize = i;
                while j <= e
                    invariant
                        i <= j <= e + 1,
                        e < n,
                        out@ =~= before + Seq::new((j - i) as nat, |m: int| v),
                    decreases e + 1 - j,
                {
                    out.push(v);
                    j = j + 1;
                }
                assert(out@ + sites_from(c, lv, (e + 1) as int) =~= before + sites_from(c, lv, i as int));
                i = e + 1;
            },
        }
    }
    assert(sites_from(c, lv, n as int) =~= Seq::empty());
    out
}

} // verus!
