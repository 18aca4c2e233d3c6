//! The managed `grund init` block inside an agent entrypoint (`AGENTS.md` and its
//! companions): locating it, judging its version, and splicing a fresh copy in.
//!
//! The block begins at a line that reads `## Grounding with grund (vN)` (spaces,
//! tabs or a carriage return may trail it) and runs to the next H1 or H2 line (`#`
//! or `##` followed by whitespace) or the end of the text, less the blank lines
//! just before that boundary. A line starting with `<!-- grund:begin` is the older
//! comment-marker form of the block, which is no longer accepted.
use vstd::prelude::*;
use crate::grammar::{self, CharClass};
use crate::text;
use crate::text::{append_chars, chars_of, decimal_string, string_from_chars};

verus! {

/// The block version this library writes and accepts.
pub const AGENTS_BLOCK_VERSION: u32 = 1;

pub open spec fn block_heading() -> Seq<char> {
    "## Grounding with grund (v"@
}

pub open spec fn legacy_begin() -> Seq<char> {
    "<!-- grund:begin"@
}

/// `i` is where a line begins.
pub open spec fn line_start(t: Seq<char>, i: int) -> bool {
    0 <= i <= t.len() && (i == 0 || t[i - 1] == '\n')
}

/// Index of the first `'\n'` at or after `i`, or the length.
pub open spec fn line_end(t: Seq<char>, i: int) -> int
    decreases t.len() - i,
{
    if i < 0 || i >= t.len() {
        t.len() as int
    } else if t[i] == '\n' {
        i
    } else {
        line_end(t, i + 1)
    }
}

pub open spec fn is_pad(c: char) -> bool {
    c == ' ' || c == '\t' || c == '\r'
}

/// A block heading line starting at `i`: the end of that line and the version digits.
pub open spec fn heading_at(t: Seq<char>, i: int) -> Option<(int, Seq<char>)> {
    let j = i + block_heading().len();
    let d = grammar::run_end(CharClass::Digit, t, j);
    let e = line_end(t, d + 1);
    if line_start(t, i) && text::occurs_at(t, block_heading(), i) && d > j && d < t.len() && t[d]
        == ')' && (forall|k: int| d < k < e ==> is_pad(#[trigger] t[k])) {
        Some((e, t.subrange(j, d)))
    } else {
        None
    }
}

/// The first block heading at or after `i`: (start, line end, digits).
pub open spec fn first_heading_from(t: Seq<char>, i: int) -> Option<(int, int, Seq<char>)>
    decreases t.len() + 1 - i,
{
    if i < 0 || i > t.len() {
        None
    } else {
        match heading_at(t, i) {
            Some((e, ds)) => Some((i, e, ds)),
            None => first_heading_from(t, i + 1),
        }
    }
}

/// An H1 or H2 line begins at `q`.
pub open spec fn section_boundary_at(t: Seq<char>, q: int) -> bool {
    &&& line_start(t, q)
    &&& q < t.len()
    &&& t[q] == '#'
    &&& ((q + 1 < t.len() && text::is_ws(t[q + 1])) || (q + 2 < t.len() && t[q + 1] == '#'
        && text::is_ws(t[q + 2])))
}

/// The first section boundary at or after `q`, or the length.
pub open spec fn next_boundary(t: Seq<char>, q: int) -> int
    decreases t.len() - q,
{
    if q < 0 || q >= t.len() {
        t.len() as int
    } else if section_boundary_at(t, q) {
        q
    } else {
        next_boundary(t, q + 1)
    }
}

/// `end` moved back over blank lines, not below `after`.
pub open spec fn trim_blank(t: Seq<char>, after: int, end: int) -> int
    decreases end,
{
    if end > after && end >= 2 && end <= t.len() && t[end - 1] == '\n' && t[end - 2] == '\n' {
        trim_blank(t, after, end - 1)
    } else {
        end
    }
}

/// Where the managed block sits in a text, and its version.
pub ghost struct AgentsBlockV {
    pub start: int,
    pub end: int,
    pub version: u32,
}

/// The managed block of `t`: the first block heading (if its version fits a `u32`),
/// up to the next section boundary less trailing blank lines.
pub open spec fn find_agents_block(t: Seq<char>) -> Option<AgentsBlockV> {
    match first_heading_from(t, 0) {
        Some((s, e, ds)) => if grammar::digits_value(ds) <= u32::MAX {
            Some(
                AgentsBlockV {
                    start: s,
                    end: trim_blank(t, e, next_boundary(t, e)),
                    version: grammar::digits_value(ds) as u32,
                },
            )
        } else {
            None
        },
        None => None,
    }
}

/// The first line that starts with the legacy begin marker, at or after `i`.
pub open spec fn first_legacy_from(t: Seq<char>, i: int) -> Option<int>
    decreases t.len() + 1 - i,
{
    if i < 0 || i > t.len() {
        None
    } else if line_start(t, i) && text::occurs_at(t, legacy_begin(), i) {
        Some(i)
    } else {
        first_legacy_from(t, i + 1)
    }
}

proof fn lemma_line_end_bounds(t: Seq<char>, i: int)
    requires
        0 <= i,
    ensures
        line_end(t, i) == t.len() || (i <= line_end(t, i) < t.len() && t[line_end(t, i)] == '\n'),
        i <= t.len() ==> i <= line_end(t, i) <= t.len(),
        forall|k: int| i <= k < line_end(t, i) ==> t[k] != '\n',
    decreases t.len() - i,
{
    if i < t.len() && t[i] != '\n' {
        lemma_line_end_bounds(t, i + 1);
    }
}

proof fn lemma_first_heading_from(t: Seq<char>, i: int)
    requires
        0 <= i,
    ensures
        first_heading_from(t, i) matches Some((s, e, ds)) ==> i <= s <= t.len() && heading_at(t, s)
            == Some((e, ds)),
    decreases t.len() + 1 - i,
{
    if i <= t.len() && heading_at(t, i) is None {
        lemma_first_heading_from(t, i + 1);
    }
}

proof fn lemma_next_boundary(t: Seq<char>, q: int)
    requires
        0 <= q <= t.len(),
    ensures
        q <= next_boundary(t, q) <= t.len(),
    decreases t.len() - q,
{
    if q < t.len() && !section_boundary_at(t, q) {
        lemma_next_boundary(t, q + 1);
    }
}

proof fn lemma_trim_blank(t: Seq<char>, after: int, end: int)
    requires
        0 <= after <= end <= t.len(),
    ensures
        after <= trim_blank(t, after, end) <= end,
    decreases end,
{
    if end > after && end >= 2 && t[end - 1] == '\n' && t[end - 2] == '\n' {
        lemma_trim_blank(t, after, end - 1);
    }
}

/// The executable form of a located block.
pub struct AgentsBlock {
    pub start: usize,
    pub end: usize,
    pub version: u32,
}

fn heading_exec(t: &[char], head: &[char], i: usize) -> (r: Option<usize>)
    requires
        i <= t@.len(),
        head@ == block_heading(),
    ensures
        match r {
            Some(e) => heading_at(t@, i as int) matches Some((e2, _)) && e2 == e,
            None => heading_at(t@, i as int) is None,
        },
{
    if !(i == 0 || t[i - 1] == '\n') {
        return None;
    }
    if !text::matches_at(t, i, head) {
        return None;
    }
    let j = i + head.len();
    let d = grammar::scan_run(&CharClass::Digit, t, j);
    if !(d > j && d < t.len() && t[d] == ')') {
        return None;
    }
    let mut e = d + 1;
    while e < t.len() && t[e] != '\n'
        invariant
            j == i + block_heading().len(),
            d == grammar::run_end(CharClass::Digit, t@, j as int),
            line_start(t@, i as int),
            text::occurs_at(t@, block_heading(), i as int),
            j < d < t@.len(),
            t@[d as int] == ')',
            d < e <= t@.len(),
            line_end(t@, d + 1) == line_end(t@, e as int),
            forall|k: int| d < k < e ==> is_pad(#[trigger] t@[k]),
        decreases t@.len() - e,
    {
        if !(t[e] == ' ' || t[e] == '\t' || t[e] == '\r') {
            proof {
                lemma_line_end_bounds(t@, e as int);
                assert(e < line_end(t@, d + 1));
                assert(!is_pad(t@[e as int]));
            }
            return None;
        }
        e = e + 1;
    }
    Some(e)
}

fn boundary_exec(t: &[char], q: usize) -> (r: bool)
    requires
        q < t@.len(),
    ensures
        r == section_boundary_at(t@, q as int),
{
    if !(q == 0 || t[q - 1] == '\n') || t[q] != '#' {
        return false;
    }
    (q + 1 < t.len() && text::is_whitespace(t[q + 1])) || (q + 1 < t.len() && t[q + 1] == '#'
        && q + 2 < t.len() && text::is_whitespace(t[q + 2]))
}

/// Locates the managed block in `t` (character positions).
pub fn find_agents_block_exec(t: &[char]) -> (r: Option<AgentsBlock>)
    ensures
        match (r, find_agents_block(t@)) {
            (Some(b), Some(v)) => b.start == v.start && b.end == v.end && b.version == v.version,
            (None, None) => true,
            _ => false,
        },
        r matches Some(b) ==> b.start <= b.end <= t@.len() && b.start < t@.len(),
{
    let head = chars_of("## Grounding with grund (v");
    let len = t.len();
    let mut i: usize = 0;
    let mut found: Option<(usize, usize)> = None;
    loop
        invariant_except_break
            found is None,
            first_heading_from(t@, 0) == first_heading_from(t@, i as int),
        invariant
            len == t@.len(),
            i <= len,
            head@ == block_heading(),
        ensures
            found is None ==> first_heading_from(t@, 0) is None,
            found matches Some((s, e)) ==> first_heading_from(t@, 0) matches Some((s2, e2, _))
                && s2 == s && e2 == e,
        decreases len - i,
    {
        match heading_exec(t, head.as_slice(), i) {
            Some(e) => {
                assert(first_heading_from(t@, i as int) == Some(
                    (i as int, e as int, heading_at(t@, i as int).unwrap().1),
                ));
                found = Some((i, e));
                break;
            },
            None => {},
        }
        if i == len {
            assert(first_heading_from(t@, (len + 1) as int) is None);
            break;
        }
        i = i + 1;
    }
    match found {
        None => None,
        Some((s, e)) => {
            proof {
                lemma_first_heading_from(t@, 0);
            }
            let ghost ds = first_heading_from(t@, 0).unwrap().2;
            let j = s + head.len();
            let d = grammar::scan_run(&CharClass::Digit, t, j);
            proof {
                grammar::lemma_run_end(CharClass::Digit, t@, j as int);
                assert(ds == t@.subrange(j as int, d as int));
                lemma_line_end_bounds(t@, d + 1);
            }
            let version = match grammar::parse_u32_digits(t, j, d) {
                Some(v) => v,
                None => {
                    return None;
                },
            };
            let mut q = e;
            proof {
                lemma_next_boundary(t@, e as int);
            }
            while q < len && !boundary_exec(t, q)
                invariant
                    len == t@.len(),
                    e <= q <= len,
                    next_boundary(t@, e as int) == next_boundary(t@, q as int),
                decreases len - q,
            {
                q = q + 1;
            }
            let mut end = q;
            proof {
                lemma_trim_blank(t@, e as int, q as int);
            }
            while end > e && end >= 2 && t[end - 1] == '\n' && t[end - 2] == '\n'
                invariant
                    len == t@.len(),
                    e <= end <= len,
                    trim_blank(t@, e as int, end as int) == trim_blank(
                        t@,
                        e as int,
                        next_boundary(t@, e as int),
                    ),
                decreases end,
            {
                end = end - 1;
            }
            Some(AgentsBlock { start: s, end, version })
        },
    }
}

/// Finds the first legacy begin marker line.
pub fn find_legacy_exec(t: &[char]) -> (r: Option<usize>)
    ensures
        match r {
            Some(i) => first_legacy_from(t@, 0) == Some(i as int) && i < t@.len(),
            None => first_legacy_from(t@, 0) is None,
        },
{
    let marker = chars_of("<!-- grund:begin");
    let len = t.len();
    let mut i: usize = 0;
    loop
        invariant
            len == t@.len(),
            i <= len,
            marker@ == legacy_begin(),
            first_legacy_from(t@, 0) == first_legacy_from(t@, i as int),
        decreases len - i,
    {
        if (i == 0 || t[i - 1] == '\n') && text::matches_at(t, i, marker.as_slice()) {
            proof {
                reveal_strlit("<!-- grund:begin");
            }
            return Some(i);
        }
        if i == len {
            assert(first_legacy_from(t@, (len + 1) as int) is None);
            return None;
        }
        i = i + 1;
    }
}

/// What an agent entrypoint's text says about its managed block, if anything is
/// wrong: `(line, message)`.
pub open spec fn block_problem(t: Seq<char>) -> Option<(int, Seq<char>)> {
    match find_agents_block(t) {
        Some(b) => if b.version < AGENTS_BLOCK_VERSION {
            Some(
                (
                    (text::count_newlines(t, b.start) + 1) as int,
                    "outdated grund init block v"@ + text::decimal(b.version as nat)
                        + " (run `grund init` to update to v1)"@,
                ),
            )
        } else if b.version > AGENTS_BLOCK_VERSION {
            Some(
                (
                    (text::count_newlines(t, b.start) + 1) as int,
                    "unsupported grund init block v"@ + text::decimal(b.version as nat)
                        + " (this grund supports v1)"@,
                ),
            )
        } else {
            None
        },
        None => match first_legacy_from(t, 0) {
            Some(i) => Some(((text::count_newlines(t, i) + 1) as int, "malformed grund init block"@)),
            None => Some((1, "missing grund init block v1"@)),
        },
    }
}

/// Judges the managed block of an agent entrypoint's text.
pub fn block_problem_exec(text: &str) -> (r: Option<(usize, String)>)
    ensures
        match (r, block_problem(text@)) {
            (Some((l, m)), Some((l2, m2))) => l == l2 && m@ == m2,
            (None, None) => true,
            _ => false,
        },
{
    let t = chars_of(text);
    match find_agents_block_exec(t.as_slice()) {
        Some(b) => {
            if b.version < AGENTS_BLOCK_VERSION {
                let line = text::line_of_index(t.as_slice(), b.start);
                let mut m = String::from_str("outdated grund init block v");
                let d = decimal_string(b.version as usize);
                m.append(d.as_str());
                m.append(" (run `grund init` to update to v1)");
                Some((line, m))
            } else if b.version > AGENTS_BLOCK_VERSION {
                let line = text::line_of_index(t.as_slice(), b.start);
                let mut m = String::from_str("unsupported grund init block v");
                let d = decimal_string(b.version as usize);
                m.append(d.as_str());
                m.append(" (this grund supports v1)");
                Some((line, m))
            } else {
                None
            }
        },
        None => match find_legacy_exec(t.as_slice()) {
            Some(i) => {
                let line = text::line_of_index(t.as_slice(), i);
                Some((line, String::from_str("malformed grund init block")))
            },
            None => Some((1, String::from_str("missing grund init block v1"))),
        },
    }
}

/// What updating an existing entrypoint did.
#[derive(Clone, Copy, PartialEq, Eq, Structural, Debug)]
pub enum AgentsUpdateResult {
    Appended,
    Updated,
    Unchanged,
}

/// What goes between an existing text without a block and the appended block.
pub open spec fn append_separator(t: Seq<char>) -> Seq<char> {
    if t.len() == 0 || text::ends_with(t, "\n\n"@) {
        Seq::empty()
    } else if text::ends_with(t, "\n"@) {
        "\n"@
    } else {
        "\n\n"@
    }
}

/// The result of splicing `block` into `existing`: the new text and what happened,
/// or an error when the existing block is newer than this library supports.
pub open spec fn agents_update(existing: Seq<char>, block: Seq<char>, label: Seq<char>) -> Result<
    (Seq<char>, AgentsUpdateResult),
    Seq<char>,
> {
    match find_agents_block(existing) {
        Some(b) => if b.version > AGENTS_BLOCK_VERSION {
            Err(
                label + " contains newer grund init block v"@ + text::decimal(b.version as nat)
                    + "; this binary supports v1"@,
            )
        } else {
            let updated = existing.subrange(0, b.start) + block + existing.subrange(
                b.end,
                existing.len() as int,
            );
            Ok(
                (
                    updated,
                    if updated == existing {
                        AgentsUpdateResult::Unchanged
                    } else {
                        AgentsUpdateResult::Updated
                    },
                ),
            )
        },
        None => Ok((existing + append_separator(existing) + block, AgentsUpdateResult::Appended)),
    }
}

/// Splices the current managed block into an existing entrypoint text, keeping
/// everything outside the block as it was.
pub fn update_agents_text(existing: &str, block: &str, label: &str) -> (r: Result<
    (String, AgentsUpdateResult),
    String,
>)
    ensures
        match (r, agents_update(existing@, block@, label@)) {
            (Ok((s, k)), Ok((s2, k2))) => s@ == s2 && k == k2,
            (Err(e), Err(e2)) => e@ == e2,
            _ => false,
        },
{
    let t = chars_of(existing);
    match find_agents_block_exec(t.as_slice()) {
        Some(b) => {
            if b.version > AGENTS_BLOCK_VERSION {
                let mut m = String::from_str(label);
                m.append(" contains newer grund init block v");
                let d = decimal_string(b.version as usize);
                m.append(d.as_str());
                m.append("; this binary supports v1");
                return Err(m);
            }
            let mut out = text::slice_range(t.as_slice(), 0, b.start);
            let bc = chars_of(block);
            text::push_all(&mut out, bc.as_slice());
            let rest = text::slice_range(t.as_slice(), b.end, t.len());
            text::push_all(&mut out, rest.as_slice());
            let same = crate::order::chars_equal(out.as_slice(), t.as_slice());
            let kind = if same {
                AgentsUpdateResult::Unchanged
            } else {
                AgentsUpdateResult::Updated
            };
            Ok((string_from_chars(out.as_slice()), kind))
        },
        None => {
            let nn = chars_of("\n\n");
            let n1 = chars_of("\n");
            let mut out = t.clone();
            let ends2 = text::prefix_ends_with(t.as_slice(), t.len(), nn.as_slice());
            let ends1 = text::prefix_ends_with(t.as_slice(), t.len(), n1.as_slice());
            proof {
                assert(t@.subrange(0, t@.len() as int) =~= t@);
            }
            if t.len() == 0 || ends2 {
            } else if ends1 {
                text::push_all(&mut out, n1.as_slice());
            } else {
                text::push_all(&mut out, nn.as_slice());
            }
            let bc = chars_of(block);
            text::push_all(&mut out, bc.as_slice());
            proof {
                assert(out@ =~= t@ + append_separator(t@) + block@);
            }
            Ok((string_from_chars(out.as_slice()), AgentsUpdateResult::Appended))
        },
    }
}

// ---------------------------------------------------------------- re-running an update

/// `n` characters of `t1` from `a1` equal those of `t2` from `a2`.
pub open spec fn agree(t1: Seq<char>, a1: int, t2: Seq<char>, a2: int, n: int) -> bool {
    &&& 0 <= a1
    &&& 0 <= a2
    &&& 0 <= n
    &&& a1 + n <= t1.len()
    &&& a2 + n <= t2.len()
    &&& forall|k: int| 0 <= k < n ==> #[trigger] t1[a1 + k] == t2[a2 + k]
}

/// Both windows end a line at offset `n`: `t2` with a newline, `t1` with a newline
/// or its end.
pub open spec fn line_closed(t1: Seq<char>, a1: int, t2: Seq<char>, a2: int, n: int) -> bool {
    &&& a2 + n < t2.len()
    &&& t2[a2 + n] == '\n'
    &&& (a1 + n == t1.len() || (a1 + n < t1.len() && t1[a1 + n] == '\n'))
}

proof fn lemma_line_end_agree(t1: Seq<char>, a1: int, t2: Seq<char>, a2: int, n: int, i: int)
    requires
        agree(t1, a1, t2, a2, n),
        line_closed(t1, a1, t2, a2, n),
        0 <= i <= n,
    ensures
        line_end(t1, a1 + i) - a1 == line_end(t2, a2 + i) - a2,
        line_end(t1, a1 + i) - a1 <= n,
    decreases n - i,
{
    if i < n {
        assert(t1[a1 + i] == t2[a2 + i]);
        if t1[a1 + i] != '\n' {
            lemma_line_end_agree(t1, a1, t2, a2, n, i + 1);
        }
    }
}

proof fn lemma_digits_agree(t1: Seq<char>, a1: int, t2: Seq<char>, a2: int, n: int, j: int)
    requires
        agree(t1, a1, t2, a2, n),
        line_closed(t1, a1, t2, a2, n),
        0 <= j <= n,
    ensures
        grammar::run_end(CharClass::Digit, t1, a1 + j) - a1 == grammar::run_end(CharClass::Digit, t2, a2 + j) - a2,
        grammar::run_end(CharClass::Digit, t1, a1 + j) - a1 <= n,
        grammar::run_end(CharClass::Digit, t1, a1 + j) - a1 >= j,
    decreases n - j,
{
    if j < n {
        assert(t1[a1 + j] == t2[a2 + j]);
        if grammar::is_digit(t1[a1 + j]) {
            lemma_digits_agree(t1, a1, t2, a2, n, j + 1);
        }
    }
}

/// A block heading reads the same in two texts that agree on its line.
proof fn lemma_heading_agree(t1: Seq<char>, a1: int, t2: Seq<char>, a2: int, n: int)
    requires
        agree(t1, a1, t2, a2, n),
        line_closed(t1, a1, t2, a2, n),
        line_start(t1, a1) == line_start(t2, a2),
    ensures
        match (heading_at(t1, a1), heading_at(t2, a2)) {
            (None, None) => true,
            (Some((e1, d1)), Some((e2, d2))) => e1 - a1 == e2 - a2 && d1 == d2 && e1 - a1 <= n,
            _ => false,
        },
{
    reveal_strlit("## Grounding with grund (v");
    let h = block_heading();
    let hl = h.len() as int;
    assert(forall|k: int| 0 <= k < hl ==> h[k] != '\n');
    if hl <= n {
        assert(text::occurs_at(t1, h, a1) == text::occurs_at(t2, h, a2)) by {
            if text::occurs_at(t1, h, a1) {
                assert forall|k: int| 0 <= k < hl implies t2.subrange(a2, a2 + hl)[k] == h[k] by {
                    assert(t1.subrange(a1, a1 + hl)[k] == h[k]);
                    assert(t1[a1 + k] == t2[a2 + k]);
                }
                assert(t2.subrange(a2, a2 + hl) =~= h);
            }
            if text::occurs_at(t2, h, a2) {
                assert forall|k: int| 0 <= k < hl implies t1.subrange(a1, a1 + hl)[k] == h[k] by {
                    assert(t2.subrange(a2, a2 + hl)[k] == h[k]);
                    assert(t1[a1 + k] == t2[a2 + k]);
                }
                assert(t1.subrange(a1, a1 + hl) =~= h);
            }
        }
        lemma_digits_agree(t1, a1, t2, a2, n, hl);
        let d1 = grammar::run_end(CharClass::Digit, t1, a1 + hl);
        let d2 = grammar::run_end(CharClass::Digit, t2, a2 + hl);
        let dd = d1 - a1;
        if dd < n {
            assert(t1[a1 + dd] == t2[a2 + dd]);
            lemma_line_end_agree(t1, a1, t2, a2, n, dd + 1);
            let e1 = line_end(t1, d1 + 1);
            let e2 = line_end(t2, d2 + 1);
            assert((forall|k: int| d1 < k < e1 ==> is_pad(#[trigger] t1[k])) == (forall|k: int|
                d2 < k < e2 ==> is_pad(#[trigger] t2[k]))) by {
                if forall|k: int| d1 < k < e1 ==> is_pad(#[trigger] t1[k]) {
                    assert forall|k: int| d2 < k < e2 implies is_pad(#[trigger] t2[k]) by {
                        assert(t1[a1 + (k - a2)] == t2[a2 + (k - a2)]);
                    }
                }
                if forall|k: int| d2 < k < e2 ==> is_pad(#[trigger] t2[k]) {
                    assert forall|k: int| d1 < k < e1 implies is_pad(#[trigger] t1[k]) by {
                        assert(t1[a1 + (k - a1)] == t2[a2 + (k - a1)]);
                    }
                }
            }
            let s1 = t1.subrange(a1 + hl, d1);
            let s2 = t2.subrange(a2 + hl, d2);
            assert(s1 =~= s2) by {
                assert forall|k: int| 0 <= k < dd - hl implies #[trigger] s1[k] == s2[k] by {
                    assert(t1[a1 + (hl + k)] == t2[a2 + (hl + k)]);
                }
            }
        } else {
            assert(dd == n);
        }
    } else {
        // the heading would cross the end of the line
        if text::occurs_at(t1, h, a1) {
            assert(t1.subrange(a1, a1 + hl)[n] == h[n]);
        }
        if text::occurs_at(t2, h, a2) {
            assert(t2.subrange(a2, a2 + hl)[n] == h[n]);
        }
    }
}

/// No block heading starts in `[i, s)` when the first one from `i` is at `s`.
proof fn lemma_first_heading_none_before(t: Seq<char>, i: int, s: int, k: int)
    requires
        0 <= i <= k < s,
        first_heading_from(t, i) matches Some((s2, _, _)) && s2 == s,
    ensures
        heading_at(t, k) is None,
    decreases k - i,
{
    if heading_at(t, i) is None && i < k {
        lemma_first_heading_none_before(t, i + 1, s, k);
    }
}

proof fn lemma_no_heading_anywhere(t: Seq<char>, i: int, k: int)
    requires
        0 <= i <= k <= t.len(),
        first_heading_from(t, i) is None,
    ensures
        heading_at(t, k) is None,
    decreases k - i,
{
    if i < k {
        lemma_no_heading_anywhere(t, i + 1, k);
    }
}

/// Skipping positions without a heading does not change the first heading.
proof fn lemma_first_heading_skip(t: Seq<char>, i: int, s: int)
    requires
        0 <= i <= s <= t.len(),
        forall|k: int| i <= k < s ==> heading_at(t, k) is None,
    ensures
        first_heading_from(t, i) == first_heading_from(t, s),
    decreases s - i,
{
    if i < s {
        lemma_first_heading_skip(t, i + 1, s);
    }
}


proof fn lemma_next_boundary_none_before(t: Seq<char>, q: int, k: int)
    requires
        0 <= q <= k < next_boundary(t, q),
    ensures
        !section_boundary_at(t, k),
    decreases k - q,
{
    if q < k {
        lemma_next_boundary_none_before(t, q + 1, k);
    }
}

proof fn lemma_next_boundary_skip(t: Seq<char>, q: int, r: int)
    requires
        0 <= q <= r <= t.len(),
        forall|k: int| q <= k < r ==> !section_boundary_at(t, k),
    ensures
        next_boundary(t, q) == next_boundary(t, r),
    decreases r - q,
{
    if q < r {
        lemma_next_boundary_skip(t, q + 1, r);
    }
}

/// Two texts that end alike from `x` and `y` find their next section boundaries at
/// the same offsets.
proof fn lemma_next_boundary_suffix(t: Seq<char>, x: int, u: Seq<char>, y: int, k: int)
    requires
        0 <= x <= t.len(),
        0 <= y <= u.len(),
        t.subrange(x, t.len() as int) == u.subrange(y, u.len() as int),
        line_start(t, x) == line_start(u, y),
        0 <= k <= t.len() - x,
    ensures
        next_boundary(t, x + k) - x == next_boundary(u, y + k) - y,
    decreases t.len() - x - k,
{
    let ts = t.subrange(x, t.len() as int);
    let us = u.subrange(y, u.len() as int);
    assert(ts.len() == us.len());
    if k < t.len() - x {
        assert(t[x + k] == ts[k] && u[y + k] == us[k]);
        if k > 0 {
            assert(t[x + k - 1] == ts[k - 1] && u[y + k - 1] == us[k - 1]);
        }
        if k + 1 < ts.len() {
            assert(t[x + k + 1] == ts[k + 1] && u[y + k + 1] == us[k + 1]);
        }
        if k + 2 < ts.len() {
            assert(t[x + k + 2] == ts[k + 2] && u[y + k + 2] == us[k + 2]);
        }
        assert(section_boundary_at(t, x + k) == section_boundary_at(u, y + k));
        if !section_boundary_at(t, x + k) {
            lemma_next_boundary_suffix(t, x, u, y, k + 1);
        }
    }
}

/// What trimming removed was blank lines.
proof fn lemma_trim_blank_trimmed(t: Seq<char>, a: int, end: int, x: int)
    requires
        0 <= a <= end <= t.len(),
        trim_blank(t, a, end) < x <= end,
    ensures
        x >= 2,
        t[x - 1] == '\n',
        t[x - 2] == '\n',
    decreases end,
{
    if end > a && end >= 2 && t[end - 1] == '\n' && t[end - 2] == '\n' {
        if x < end {
            lemma_trim_blank_trimmed(t, a, end - 1, x);
        }
    }
}

/// The two characters before `x` are newlines.
pub open spec fn blank_before(t: Seq<char>, x: int) -> bool {
    x >= 2 && t[x - 1] == '\n' && t[x - 2] == '\n'
}

/// Trimming runs down over blank lines.
proof fn lemma_trim_blank_down(t: Seq<char>, a: int, r: int, end: int)
    requires
        a < r <= end <= t.len(),
        forall|x: int| r < x <= end ==> #[trigger] blank_before(t, x),
    ensures
        trim_blank(t, a, end) == trim_blank(t, a, r),
    decreases end - r,
{
    if r < end {
        assert(blank_before(t, end));
        lemma_trim_blank_down(t, a, r, end - 1);
    }
}

/// A block `grund init` can write: it opens with a block heading of a supported
/// version, holds no other H1 or H2 line, and ends with one newline after a
/// non-blank line.
pub open spec fn well_formed_block(b: Seq<char>) -> bool {
    &&& heading_at(b, 0) matches Some((e, ds)) && grammar::digits_value(ds) <= AGENTS_BLOCK_VERSION && next_boundary(b, e) == b.len()
    &&& b.len() >= 2
    &&& b[b.len() - 1] == '\n'
    &&& b[b.len() - 2] != '\n'
}

/// Where the heading line of a block ends.
pub open spec fn heading_end(b: Seq<char>) -> int {
    match heading_at(b, 0) {
        Some((e, _)) => e,
        None => 0,
    }
}

/// In `t`, a well-formed block sits at `p`: the text from `p` on starts with it,
/// and `p` starts a line.
proof fn lemma_block_found_at(t: Seq<char>, p: int, b: Seq<char>)
    requires
        well_formed_block(b),
        0 <= p,
        p + b.len() <= t.len(),
        t.subrange(p, p + b.len()) == b,
        line_start(t, p),
    ensures
        heading_at(b, 0) matches Some((e, ds)) && heading_at(t, p) == Some((p + e, ds)) && 0 < e < b.len(),
        forall|q: int| #![trigger section_boundary_at(t, q)]
            heading_end(b) + p <= q < p + b.len() ==> !section_boundary_at(t, q),
{
    reveal_strlit("## Grounding with grund (v");
    let (e, ds) = heading_at(b, 0)->0;
    lemma_line_end_bounds(b, 0);
    let h = line_end(b, 0);
    assert(h < b.len()) by {
        if h == b.len() {
            assert(b[b.len() - 1] != '\n');
        }
    }
    assert(agree(t, p, b, 0, h)) by {
        assert forall|k: int| 0 <= k < h implies #[trigger] t[p + k] == b[0 + k] by {
            assert(t.subrange(p, p + b.len())[k] == t[p + k]);
        }
    }
    assert(t[p + h] == b[h]) by {
        assert(t.subrange(p, p + b.len())[h] == t[p + h]);
    }
    lemma_heading_agree(t, p, b, 0, h);
    assert(e > 0) by {
        let hl = block_heading().len() as int;
        let d = grammar::run_end(CharClass::Digit, b, hl);
        grammar::lemma_run_end(CharClass::Digit, b, hl);
        lemma_line_end_bounds(b, d + 1);
    }
    assert forall|q: int| #![trigger section_boundary_at(t, q)] e + p <= q < p + b.len() implies !section_boundary_at(t, q) by {
        let k = q - p;
        lemma_next_boundary_none_before(b, e, k);
        assert(t[q] == b[k]) by {
            assert(t.subrange(p, p + b.len())[k] == t[q]);
        }
        assert(t[q - 1] == b[k - 1]) by {
            assert(t.subrange(p, p + b.len())[k - 1] == t[q - 1]);
        }
        if k + 1 < b.len() {
            assert(t[q + 1] == b[k + 1]) by {
                assert(t.subrange(p, p + b.len())[k + 1] == t[q + 1]);
            }
        }
        if k + 2 < b.len() {
            assert(t[q + 2] == b[k + 2]) by {
                assert(t.subrange(p, p + b.len())[k + 2] == t[q + 2]);
            }
        }
        if k == b.len() - 2 {
            assert(t[q + 1] == b[k + 1]) by {
                assert(t.subrange(p, p + b.len())[k + 1] == t[q + 1]);
            }
        }
    }
}


proof fn lemma_heading_bounds(t: Seq<char>, i: int)
    requires
        heading_at(t, i) is Some,
    ensures
        heading_at(t, i) matches Some((e, _)) && 0 <= i < e <= t.len() && (e == t.len() || t[e] == '\n'),
        line_start(t, i),
{
    let hl = block_heading().len() as int;
    assert(hl > 0) by {
        reveal_strlit("## Grounding with grund (v");
    }
    let d = grammar::run_end(CharClass::Digit, t, i + hl);
    grammar::lemma_run_end(CharClass::Digit, t, i + hl);
    lemma_line_end_bounds(t, d + 1);
}

proof fn lemma_next_boundary_found(t: Seq<char>, q: int)
    requires
        0 <= q <= t.len(),
        next_boundary(t, q) < t.len(),
    ensures
        section_boundary_at(t, next_boundary(t, q)),
    decreases t.len() - q,
{
    if q < t.len() && !section_boundary_at(t, q) {
        lemma_next_boundary_found(t, q + 1);
    }
}

/// Splicing a block into a text that has one, then splicing it in again, gives
/// back the first result.
#[verifier::rlimit(40)]
pub proof fn lemma_reupdate_spliced(existing: Seq<char>, block: Seq<char>, label: Seq<char>, b0: AgentsBlockV)
    requires
        well_formed_block(block),
        find_agents_block(existing) == Some(b0),
        b0.version <= AGENTS_BLOCK_VERSION,
    ensures
        ({
            let t = existing.subrange(0, b0.start) + block + existing.subrange(b0.end, existing.len() as int);
            agents_update(t, block, label) == Ok::<(Seq<char>, AgentsUpdateResult), Seq<char>>((t, AgentsUpdateResult::Unchanged))
        }),
{
    let (eb, dsb) = heading_at(block, 0)->0;
    let bl = block.len() as int;
    let t = existing.subrange(0, b0.start) + block + existing.subrange(b0.end, existing.len() as int);
    let (s, e0, ds0) = first_heading_from(existing, 0)->0;
    lemma_first_heading_from(existing, 0);
    lemma_heading_bounds(existing, s);
    let sect = next_boundary(existing, e0);
    lemma_next_boundary(existing, e0);
    lemma_trim_blank(existing, e0, sect);
    let end0 = b0.end;
    assert(end0 == trim_blank(existing, e0, sect));
    assert(t.subrange(s, s + bl) =~= block);
    assert(line_start(t, s)) by {
        if s > 0 {
            assert(t[s - 1] == existing[s - 1]);
        }
    }
    lemma_block_found_at(t, s, block);
    // no heading before `s`
    assert forall|k: int| 0 <= k < s implies heading_at(t, k) is None by {
        lemma_first_heading_none_before(existing, 0, s, k);
        let n = (s - 1) - k;
        assert(agree(t, k, existing, k, n)) by {
            assert forall|i: int| 0 <= i < n implies #[trigger] t[k + i] == existing[k + i] by {}
        }
        assert(t[s - 1] == existing[s - 1]);
        if k > 0 {
            assert(t[k - 1] == existing[k - 1]);
        }
        lemma_heading_agree(t, k, existing, k, n);
    }
    lemma_first_heading_skip(t, 0, s);
    // the section boundary after the block
    lemma_next_boundary_skip(t, s + eb, s + bl);
    if end0 == existing.len() {
        assert(t.len() == s + bl);
    } else {
        assert(line_start(existing, end0)) by {
            if end0 < sect {
                lemma_trim_blank_trimmed(existing, e0, sect, end0 + 1);
            } else {
                lemma_next_boundary_found(existing, e0);
            }
        }
        assert(t.subrange(s + bl, t.len() as int) =~= existing.subrange(end0, existing.len() as int));
        lemma_next_boundary_suffix(t, s + bl, existing, end0, 0);
    }
    assert forall|k: int| e0 <= k < end0 implies !section_boundary_at(existing, k) by {
        lemma_next_boundary_none_before(existing, e0, k);
    }
    lemma_next_boundary_skip(existing, e0, end0);
    let nb = next_boundary(t, s + eb);
    assert(nb == s + bl + (sect - end0));
    assert forall|x: int| s + bl < x <= nb implies #[trigger] blank_before(t, x) by {
        let x2 = x - (s + bl) + end0;
        lemma_trim_blank_trimmed(existing, e0, sect, x2);
        assert(t[x - 1] == existing[x2 - 1]);
        if x - 2 >= s + bl {
            assert(t[x - 2] == existing[x2 - 2]);
        } else {
            assert(t[x - 2] == block[bl - 1]);
        }
    }
    lemma_trim_blank_down(t, s + eb, s + bl, nb);
    assert(t[s + bl - 1] == block[bl - 1] && t[s + bl - 2] == block[bl - 2]);
    assert(trim_blank(t, s + eb, s + bl) == s + bl);
    assert(t.subrange(0, s) + block + t.subrange(s + bl, t.len() as int) =~= t);
}

/// Appending a block to a text without a block heading, then splicing it in again,
/// gives back the first result.
#[verifier::rlimit(40)]
pub proof fn lemma_reupdate_appended(existing: Seq<char>, block: Seq<char>, label: Seq<char>)
    requires
        well_formed_block(block),
        first_heading_from(existing, 0) is None,
    ensures
        ({
            let t = existing + append_separator(existing) + block;
            agents_update(t, block, label) == Ok::<(Seq<char>, AgentsUpdateResult), Seq<char>>((t, AgentsUpdateResult::Unchanged))
        }),
{
    let (eb, dsb) = heading_at(block, 0)->0;
    let bl = block.len() as int;
    let t = existing + append_separator(existing) + block;
    let sep = append_separator(existing);
    let el = existing.len() as int;
    let pp = el + sep.len();
    reveal_strlit("\n\n");
    reveal_strlit("\n");
    assert(t.subrange(pp, pp + bl) =~= block);
    assert(line_start(t, pp)) by {
        if pp > 0 {
            if sep.len() > 0 {
                assert(sep =~= "\n\n"@ || sep =~= "\n"@);
                assert(t[pp - 1] == sep[sep.len() - 1]);
            } else {
                assert(existing.subrange(el - 2, el)[1] == existing[el - 1]);
                assert(t[pp - 1] == existing[el - 1]);
            }
        }
    }
    lemma_block_found_at(t, pp, block);
    assert forall|k: int| 0 <= k < pp implies heading_at(t, k) is None by {
        reveal_strlit("## Grounding with grund (v");
        if k >= el {
            assert(t[k] == '\n');
            if text::occurs_at(t, block_heading(), k) {
                assert(t.subrange(k, k + block_heading().len())[0] == block_heading()[0]);
            }
        } else {
            lemma_no_heading_anywhere(existing, 0, k);
            lemma_line_end_bounds(existing, k);
            let le = line_end(existing, k);
            let n = le - k;
            assert(agree(existing, k, t, k, n)) by {
                assert forall|i: int| 0 <= i < n implies #[trigger] existing[k + i] == t[k + i] by {}
            }
            if le == el {
                assert(existing[el - 1] != '\n');
                assert(sep =~= "\n\n"@);
                assert(t[el] == '\n');
            } else {
                assert(t[le] == existing[le]);
            }
            if k > 0 {
                assert(t[k - 1] == existing[k - 1]);
            }
            lemma_heading_agree(existing, k, t, k, n);
        }
    }
    lemma_first_heading_skip(t, 0, pp);
    lemma_next_boundary_skip(t, pp + eb, pp + bl);
    assert(t.len() == pp + bl);
    assert(t[pp + bl - 1] == block[bl - 1] && t[pp + bl - 2] == block[bl - 2]);
    assert(trim_blank(t, pp + eb, pp + bl) == pp + bl);
    assert(t.subrange(0, pp) + block + t.subrange(pp + bl, t.len() as int) =~= t);
}

/// Re-running an update changes nothing: once a well-formed block has been
/// spliced into a text (or appended to it), splicing the same block in again gives
/// back that text, reported as unchanged. A text whose block heading has a version
/// too long to read is left out: no block is found in it, the block is appended
/// after it, and the old heading still comes first.
pub proof fn lemma_update_idempotent(existing: Seq<char>, block: Seq<char>, label: Seq<char>)
    requires
        well_formed_block(block),
        find_agents_block(existing) is None ==> first_heading_from(existing, 0) is None,
        agents_update(existing, block, label) is Ok,
    ensures
        agents_update(existing, block, label) matches Ok((t, _)) && agents_update(t, block, label)
            == Ok::<(Seq<char>, AgentsUpdateResult), Seq<char>>((t, AgentsUpdateResult::Unchanged)),
{
    match find_agents_block(existing) {
        Some(b0) => lemma_reupdate_spliced(existing, block, label, b0),
        None => lemma_reupdate_appended(existing, block, label),
    }
}

} // verus!
