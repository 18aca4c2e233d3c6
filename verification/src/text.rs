//! Character-level helpers shared by the scanner, the checker and `fmt`.
//!
//! Lines are handled as character sequences; positions are character indices.
use vstd::prelude::*;

verus! {

/// The characters of a string slice, in order.
pub fn chars_of(s: &str) -> (v: Vec<char>)
    ensures
        v@ == s@,
{
    let mut v: Vec<char> = Vec::new();
    for c in it: s.chars()
        invariant
            v@ == it.seq().take(it.index() as int),
    {
        v.push(c);
    }
    v
}

/// Collects characters into an owned string (std's `FromIterator<char>` for `String`):
/// the string holds exactly those characters in order.
#[verifier::external_body]
pub(crate) fn string_from_chars(v: &[char]) -> (s: String)
    ensures
        s@ == v@,
{
    v.iter().collect::<String>()
}

/// Appends characters to a string.
pub fn append_chars(s: &mut String, v: &[char])
    ensures
        final(s)@ == old(s)@ + v@,
{
    let t = string_from_chars(v);
    s.append(t.as_str());
}

/// A string holding the decimal digits of `n`.
pub fn decimal_string(n: usize) -> (r: String)
    ensures
        r@ == decimal(n as nat),
{
    let d = decimal_chars(n);
    string_from_chars(d.as_slice())
}

/// Number of `'\n'` characters among the first `i` characters of `s`.
pub open spec fn count_newlines(s: Seq<char>, i: int) -> nat
    decreases i,
{
    if i <= 0 || i > s.len() {
        0
    } else {
        count_newlines(s, i - 1) + if s[i - 1] == '\n' { 1nat } else { 0nat }
    }
}

/// The 1-based line number of the character at index `i` of `s`.
pub fn line_of_index(s: &[char], i: usize) -> (r: usize)
    requires
        i < s@.len(),
    ensures
        r == count_newlines(s@, i as int) + 1,
{
    let len = s.len();
    let mut n: usize = 0;
    let mut k: usize = 0;
    while k < i
        invariant
            len == s@.len(),
            k <= i < s@.len(),
            n == count_newlines(s@, k as int),
            n <= k,
        decreases i - k,
    {
        if s[k] == '\n' {
            n = n + 1;
        }
        k = k + 1;
    }
    n + 1
}

/// Number of consecutive backslashes ending just before index `i`.
pub open spec fn backslash_run(s: Seq<char>, i: int) -> nat
    decreases i,
{
    if i <= 0 || i > s.len() {
        0
    } else if s[i - 1] == '\\' {
        1 + backslash_run(s, i - 1)
    } else {
        0
    }
}

/// A character is escaped when an odd number of backslashes precede it.
pub open spec fn spec_is_escaped(s: Seq<char>, i: int) -> bool {
    backslash_run(s, i) % 2 == 1
}

pub fn is_escaped(s: &[char], i: usize) -> (r: bool)
    requires
        i <= s@.len(),
    ensures
        r == spec_is_escaped(s@, i as int),
{
    let mut j = i;
    while j > 0 && s[j - 1] == '\\'
        invariant
            j <= i <= s@.len(),
            backslash_run(s@, i as int) == (i - j) + backslash_run(s@, j as int),
        decreases j,
    {
        j = j - 1;
    }
    proof {
        assert(backslash_run(s@, j as int) == 0);
    }
    (i - j) % 2 == 1
}

/// Quote state (single, double, backtick) after reading the first `n` characters.
pub open spec fn literal_state(s: Seq<char>, n: int) -> (bool, bool, bool)
    decreases n,
{
    if n <= 0 || n > s.len() {
        (false, false, false)
    } else {
        let (single, double, backtick) = literal_state(s, n - 1);
        let c = s[n - 1];
        let esc = spec_is_escaped(s, n - 1);
        if c == '\'' && !double && !backtick && !esc {
            (!single, double, backtick)
        } else if c == '"' && !single && !backtick && !esc {
            (single, !double, backtick)
        } else if c == '`' && !single && !double && !esc {
            (single, double, !backtick)
        } else {
            (single, double, backtick)
        }
    }
}

pub open spec fn min_int(a: int, b: int) -> int {
    if a < b { a } else { b }
}

/// Position `pos` lies inside a `'…'`, `"…"` or `` `…` `` literal of the line.
pub open spec fn spec_inside_string_literal(s: Seq<char>, pos: int) -> bool {
    let (a, b, c) = literal_state(s, min_int(pos, s.len() as int));
    a || b || c
}

/// Whether position `pos` falls inside a quoted or backticked literal on this line,
/// so an ID printed in a string is not taken for a citation.
pub fn is_inside_string_literal(line: &[char], pos: usize) -> (r: bool)
    ensures
        r == spec_inside_string_literal(line@, pos as int),
{
    let mut single = false;
    let mut double = false;
    let mut backtick = false;
    let mut i: usize = 0;
    while i < pos && i < line.len()
        invariant
            i <= line@.len(),
            i <= pos,
            (single, double, backtick) == literal_state(line@, i as int),
        decreases line@.len() - i,
    {
        let c = line[i];
        let esc = is_escaped(line, i);
        if c == '\'' && !double && !backtick && !esc {
            single = !single;
        } else if c == '"' && !single && !backtick && !esc {
            double = !double;
        } else if c == '`' && !single && !double && !esc {
            backtick = !backtick;
        }
        i = i + 1;
    }
    single || double || backtick
}

/// Backtick state after reading the first `n` characters.
pub open spec fn code_state(s: Seq<char>, n: int) -> bool
    decreases n,
{
    if n <= 0 || n > s.len() {
        false
    } else {
        let prev = code_state(s, n - 1);
        if s[n - 1] == '`' && !spec_is_escaped(s, n - 1) {
            !prev
        } else {
            prev
        }
    }
}

pub open spec fn spec_inside_inline_code(s: Seq<char>, pos: int) -> bool {
    code_state(s, min_int(pos, s.len() as int))
}

/// Whether position `pos` falls inside a `` `…` `` inline-code span.
pub fn is_inside_inline_code(line: &[char], pos: usize) -> (r: bool)
    ensures
        r == spec_inside_inline_code(line@, pos as int),
{
    let mut in_code = false;
    let mut i: usize = 0;
    while i < pos && i < line.len()
        invariant
            i <= line@.len(),
            i <= pos,
            in_code == code_state(line@, i as int),
        decreases line@.len() - i,
    {
        if line[i] == '`' && !is_escaped(line, i) {
            in_code = !in_code;
        }
        i = i + 1;
    }
    in_code
}

} // verus!

verus! {

/// Index of the `)` that closes a link destination opened just before `j`, with
/// `depth` parentheses still open; escaped parentheses do not count.
pub open spec fn close_paren_from(s: Seq<char>, j: int, depth: nat) -> Option<int>
    decreases s.len() - j,
{
    if j < 0 || j >= s.len() || depth == 0 {
        None
    } else if s[j] == '(' && !spec_is_escaped(s, j) {
        close_paren_from(s, j + 1, depth + 1)
    } else if s[j] == ')' && !spec_is_escaped(s, j) {
        if depth == 1 {
            Some(j)
        } else {
            close_paren_from(s, j + 1, (depth - 1) as nat)
        }
    } else {
        close_paren_from(s, j + 1, depth)
    }
}

/// `](` at `i`, not escaped: the start of an inline link destination.
pub open spec fn opens_link_destination(s: Seq<char>, i: int) -> bool {
    0 <= i && i + 1 < s.len() && s[i] == ']' && s[i + 1] == '(' && !spec_is_escaped(s, i)
}

/// Scanning from `i`, whether `pos` falls inside some link destination.
pub open spec fn link_destination_from(s: Seq<char>, pos: int, i: int) -> bool
    decreases s.len() - i,
{
    if i < 0 || i + 1 >= s.len() {
        false
    } else if opens_link_destination(s, i) {
        match close_paren_from(s, i + 2, 1) {
            Some(j) => if pos >= i + 2 && pos < j {
                true
            } else if i < j < s.len() {
                link_destination_from(s, pos, j + 1)
            } else {
                false
            },
            None => pos >= i + 2,
        }
    } else {
        link_destination_from(s, pos, i + 1)
    }
}

proof fn lemma_close_paren_after(s: Seq<char>, j: int, depth: nat)
    ensures
        close_paren_from(s, j, depth) matches Some(k) ==> j <= k < s.len(),
    decreases s.len() - j,
{
    if j < 0 || j >= s.len() || depth == 0 {
    } else if s[j] == '(' && !spec_is_escaped(s, j) {
        lemma_close_paren_after(s, j + 1, depth + 1);
    } else if s[j] == ')' && !spec_is_escaped(s, j) {
        if depth != 1 {
            lemma_close_paren_after(s, j + 1, (depth - 1) as nat);
        }
    } else {
        lemma_close_paren_after(s, j + 1, depth);
    }
}

fn matching_close_paren(line: &[char], start: usize) -> (r: Option<usize>)
    requires
        1 <= start <= line@.len(),
    ensures
        r is Some <==> close_paren_from(line@, start as int, 1) is Some,
        r matches Some(k) ==> close_paren_from(line@, start as int, 1) == Some(k as int) && start
            <= k < line@.len(),
{
    proof {
        lemma_close_paren_after(line@, start as int, 1);
    }
    let mut depth: usize = 1;
    let mut j = start;
    while j < line.len()
        invariant
            1 <= start <= j <= line@.len(),
            1 <= depth <= j - start + 1,
            close_paren_from(line@, start as int, 1) == close_paren_from(line@, j as int, depth as nat),
        decreases line@.len() - j,
    {
        if line[j] == '(' && !is_escaped(line, j) {
            assert(depth + 1 <= line@.len());
            depth = depth + 1;
        } else if line[j] == ')' && !is_escaped(line, j) {
            if depth == 1 {
                return Some(j);
            }
            depth = depth - 1;
        }
        j = j + 1;
    }
    None
}

pub open spec fn spec_inside_markdown_link_destination(s: Seq<char>, pos: int) -> bool {
    link_destination_from(s, pos, 0)
}

/// Whether position `pos` falls inside the destination part of an inline Markdown
/// link `[text](destination)`; an unclosed destination runs to the end of the line.
pub fn is_inside_markdown_link_destination(line: &[char], pos: usize) -> (r: bool)
    ensures
        r == spec_inside_markdown_link_destination(line@, pos as int),
{
    let mut i: usize = 0;
    while line.len() > 0 && i < line.len() - 1
        invariant
            i <= line@.len(),
            spec_inside_markdown_link_destination(line@, pos as int) == link_destination_from(
                line@,
                pos as int,
                i as int,
            ),
        decreases line@.len() - i,
    {
        if line[i] == ']' && line[i + 1] == '(' && !is_escaped(line, i) {
            let start = i + 2;
            let found = matching_close_paren(line, start);
            assert(opens_link_destination(line@, i as int));
            match found {
                Some(j) => {
                    assert(close_paren_from(line@, start as int, 1) == Some(j as int));
                    if pos >= start && pos < j {
                        return true;
                    }
                    i = j + 1;
                },
                None => {
                    return pos >= start;
                },
            }
        } else {
            i = i + 1;
        }
    }
    false
}

} // verus!

verus! {

/// Unicode `White_Space`, the set `char::is_whitespace` and `str::trim` use.
pub open spec fn is_ws(c: char) -> bool {
    ||| c == ' '
    ||| c == '\t'
    ||| c == '\n'
    ||| c == '\u{0B}'
    ||| c == '\u{0C}'
    ||| c == '\r'
    ||| c == '\u{85}'
    ||| c == '\u{A0}'
    ||| c == '\u{1680}'
    ||| ('\u{2000}' <= c && c <= '\u{200A}')
    ||| c == '\u{2028}'
    ||| c == '\u{2029}'
    ||| c == '\u{202F}'
    ||| c == '\u{205F}'
    ||| c == '\u{3000}'
}

pub fn is_whitespace(c: char) -> (r: bool)
    ensures
        r == is_ws(c),
{
    c == ' ' || c == '\t' || c == '\n' || c == '\u{0B}' || c == '\u{0C}' || c == '\r' || c
        == '\u{85}' || c == '\u{A0}' || c == '\u{1680}' || ('\u{2000}' <= c && c <= '\u{200A}')
        || c == '\u{2028}' || c == '\u{2029}' || c == '\u{202F}' || c == '\u{205F}' || c
        == '\u{3000}'
}

/// Index of the first non-whitespace character at or after `i` (or the length).
pub open spec fn skip_ws(s: Seq<char>, i: int) -> int
    decreases s.len() - i,
{
    if i < 0 || i >= s.len() {
        if i < 0 { 0 } else { s.len() as int }
    } else if is_ws(s[i]) {
        skip_ws(s, i + 1)
    } else {
        i
    }
}

/// End index once trailing whitespace before `e` is dropped.
pub open spec fn rtrim_end(s: Seq<char>, e: int) -> int
    decreases e,
{
    if e <= 0 || e > s.len() {
        if e <= 0 { 0 } else { s.len() as int }
    } else if is_ws(s[e - 1]) {
        rtrim_end(s, e - 1)
    } else {
        e
    }
}

pub open spec fn trim_start(s: Seq<char>) -> Seq<char> {
    s.subrange(skip_ws(s, 0), s.len() as int)
}

pub open spec fn trim_end(s: Seq<char>) -> Seq<char> {
    s.subrange(0, rtrim_end(s, s.len() as int))
}

pub open spec fn trim(s: Seq<char>) -> Seq<char> {
    trim_end(trim_start(s))
}

pub proof fn lemma_skip_ws_bounds(s: Seq<char>, i: int)
    requires
        0 <= i <= s.len(),
    ensures
        i <= skip_ws(s, i) <= s.len(),
        skip_ws(s, i) < s.len() ==> !is_ws(s[skip_ws(s, i)]),
        forall|k: int| i <= k < skip_ws(s, i) ==> is_ws(#[trigger] s[k]),
    decreases s.len() - i,
{
    if i < s.len() && is_ws(s[i]) {
        lemma_skip_ws_bounds(s, i + 1);
    }
}

pub proof fn lemma_rtrim_bounds(s: Seq<char>, e: int)
    requires
        0 <= e <= s.len(),
    ensures
        0 <= rtrim_end(s, e) <= e,
        rtrim_end(s, e) > 0 ==> !is_ws(s[rtrim_end(s, e) - 1]),
    decreases e,
{
    if e > 0 && is_ws(s[e - 1]) {
        lemma_rtrim_bounds(s, e - 1);
    }
}

/// Index of the first non-whitespace character at or after `i`.
pub fn skip_whitespace(s: &[char], i: usize) -> (r: usize)
    requires
        i <= s@.len(),
    ensures
        r == skip_ws(s@, i as int),
        i <= r <= s@.len(),
{
    proof {
        lemma_skip_ws_bounds(s@, i as int);
    }
    let mut j = i;
    while j < s.len() && is_whitespace(s[j])
        invariant
            i <= j <= s@.len(),
            skip_ws(s@, j as int) == skip_ws(s@, i as int),
        decreases s@.len() - j,
    {
        j = j + 1;
    }
    j
}

/// End index of `s[..e]` once trailing whitespace is dropped.
pub fn trim_end_index(s: &[char], e: usize) -> (r: usize)
    requires
        e <= s@.len(),
    ensures
        r == rtrim_end(s@, e as int),
        r <= e,
{
    proof {
        lemma_rtrim_bounds(s@, e as int);
    }
    let mut j = e;
    while j > 0 && is_whitespace(s[j - 1])
        invariant
            j <= e <= s@.len(),
            rtrim_end(s@, j as int) == rtrim_end(s@, e as int),
        decreases j,
    {
        j = j - 1;
    }
    j
}

/// A copy of `s[a..b]`.
pub fn slice_range(s: &[char], a: usize, b: usize) -> (r: Vec<char>)
    requires
        a <= b <= s@.len(),
    ensures
        r@ == s@.subrange(a as int, b as int),
{
    let mut r: Vec<char> = Vec::new();
    let mut i = a;
    while i < b
        invariant
            a <= i <= b <= s@.len(),
            r@ == s@.subrange(a as int, i as int),
        decreases b - i,
    {
        r.push(s[i]);
        i = i + 1;
    }
    r
}

/// Appends every character of `src` to `out`.
pub fn push_all(out: &mut Vec<char>, src: &[char])
    ensures
        final(out)@ == old(out)@ + src@,
{
    let ghost start = out@;
    let mut i: usize = 0;
    while i < src.len()
        invariant
            i <= src@.len(),
            out@ == start + src@.subrange(0, i as int),
        decreases src@.len() - i,
    {
        out.push(src[i]);
        i = i + 1;
    }
    assert(src@.subrange(0, src@.len() as int) == src@);
}

/// `p` occurs in `s` at index `i`.
pub open spec fn occurs_at(s: Seq<char>, p: Seq<char>, i: int) -> bool {
    0 <= i && i + p.len() <= s.len() && s.subrange(i, i + p.len()) == p
}

pub open spec fn starts_with(s: Seq<char>, p: Seq<char>) -> bool {
    occurs_at(s, p, 0)
}

pub open spec fn ends_with(s: Seq<char>, p: Seq<char>) -> bool {
    p.len() <= s.len() && occurs_at(s, p, s.len() - p.len())
}

/// Whether `p` occurs in `s` at index `i`.
pub fn matches_at(s: &[char], i: usize, p: &[char]) -> (r: bool)
    ensures
        r == occurs_at(s@, p@, i as int),
{
    if i > s.len() || p.len() > s.len() - i {
        return false;
    }
    let mut k: usize = 0;
    while k < p.len()
        invariant
            i + p@.len() <= s@.len(),
            s@.len() <= usize::MAX,
            k <= p@.len(),
            forall|m: int| 0 <= m < k ==> s@[i + m] == p@[m],
        decreases p@.len() - k,
    {
        if s[i + k] != p[k] {
            assert(s@.subrange(i as int, i + p@.len())[k as int] != p@[k as int]);
            return false;
        }
        k = k + 1;
    }
    assert(s@.subrange(i as int, i + p@.len()) =~= p@);
    true
}

/// Whether the first `e` characters of `s` end with `p`.
pub fn prefix_ends_with(s: &[char], e: usize, p: &[char]) -> (r: bool)
    requires
        e <= s@.len(),
    ensures
        r == ends_with(s@.subrange(0, e as int), p@),
{
    if p.len() > e {
        return false;
    }
    let r = matches_at(s, e - p.len(), p);
    proof {
        let t = s@.subrange(0, e as int);
        assert(t.subrange(e - p@.len(), e as int) =~= s@.subrange(e - p@.len(), e as int));
    }
    r
}

/// First index `>= from` at which `p` occurs in `s`.
pub open spec fn find_from(s: Seq<char>, p: Seq<char>, from: int) -> Option<int>
    decreases s.len() + 1 - from,
{
    if from < 0 || from + p.len() > s.len() {
        None
    } else if occurs_at(s, p, from) {
        Some(from)
    } else {
        find_from(s, p, from + 1)
    }
}

pub proof fn lemma_find_from_bounds(s: Seq<char>, p: Seq<char>, from: int)
    requires
        0 <= from,
    ensures
        find_from(s, p, from) matches Some(k) ==> from <= k && occurs_at(s, p, k),
        find_from(s, p, from) is None ==> forall|k: int| from <= k ==> !occurs_at(s, p, k),
    decreases s.len() + 1 - from,
{
    if from + p.len() > s.len() {
    } else if !occurs_at(s, p, from) {
        lemma_find_from_bounds(s, p, from + 1);
    }
}

} // verus!

verus! {

pub open spec fn strip_cr(l: Seq<char>) -> Seq<char> {
    if l.len() > 0 && l.last() == '\r' {
        l.drop_last()
    } else {
        l
    }
}

/// Index of the first `'\n'` at or after `from`.
pub open spec fn newline_from(s: Seq<char>, from: int) -> Option<int>
    decreases s.len() - from,
{
    if from < 0 || from >= s.len() {
        None
    } else if s[from] == '\n' {
        Some(from)
    } else {
        newline_from(s, from + 1)
    }
}

pub proof fn lemma_newline_from(s: Seq<char>, from: int)
    requires
        0 <= from,
    ensures
        newline_from(s, from) matches Some(k) ==> from <= k < s.len() && s[k] == '\n',
    decreases s.len() - from,
{
    if from < s.len() && s[from] != '\n' {
        lemma_newline_from(s, from + 1);
    }
}

/// The lines of `s` from index `start` on, as `str::lines` yields them: split at
/// `'\n'`, a `'\r'` just before the `'\n'` dropped, no empty line after a final `'\n'`.
pub open spec fn lines_from(s: Seq<char>, start: int) -> Seq<Seq<char>>
    decreases s.len() - start,
{
    if start < 0 || start >= s.len() {
        Seq::empty()
    } else {
        match newline_from(s, start) {
            Some(e) => if start <= e < s.len() {
                seq![strip_cr(s.subrange(start, e))] + lines_from(s, e + 1)
            } else {
                Seq::empty()
            },
            None => seq![s.subrange(start, s.len() as int)],
        }
    }
}

pub open spec fn spec_lines(s: Seq<char>) -> Seq<Seq<char>> {
    lines_from(s, 0)
}

pub open spec fn views(v: Seq<Vec<char>>) -> Seq<Seq<char>> {
    Seq::new(v.len(), |i: int| v[i]@)
}

/// The lines of a text, as `str::lines` splits it.
pub fn split_lines(text: &[char]) -> (r: Vec<Vec<char>>)
    ensures
        views(r@) == spec_lines(text@),
{
    let mut out: Vec<Vec<char>> = Vec::new();
    let mut start: usize = 0;
    while start < text.len()
        invariant
            start <= text@.len(),
            views(out@) + lines_from(text@, start as int) == spec_lines(text@),
        decreases text@.len() - start,
    {
        let ghost old_out = out@;
        let mut e = start;
        while e < text.len() && text[e] != '\n'
            invariant
                start <= e <= text@.len(),
                newline_from(text@, start as int) == newline_from(text@, e as int),
            decreases text@.len() - e,
        {
            e = e + 1;
        }
        if e < text.len() {
            let mut end = e;
            if end > start && text[end - 1] == '\r' {
                end = end - 1;
            }
            let line = slice_range(text, start, end);
            assert(line@ == strip_cr(text@.subrange(start as int, e as int)));
            out.push(line);
            assert(views(out@) =~= views(old_out).push(line@));
            assert(lines_from(text@, start as int) == seq![line@] + lines_from(text@, e + 1));
            assert(views(out@) + lines_from(text@, (e + 1) as int) =~= views(old_out)
                + lines_from(text@, start as int));
            start = e + 1;
        } else {
            let line = slice_range(text, start, text.len());
            out.push(line);
            assert(views(out@) =~= views(old_out).push(line@));
            assert(views(out@) + lines_from(text@, text@.len() as int) =~= views(old_out)
                + lines_from(text@, start as int));
            start = text.len();
        }
    }
    assert(views(out@) =~= views(out@) + lines_from(text@, start as int));
    out
}

} // verus!

verus! {

pub open spec fn digit_char(d: nat) -> char {
    if d == 0 { '0' } else if d == 1 { '1' } else if d == 2 { '2' } else if d == 3 { '3' } else if d
        == 4 { '4' } else if d == 5 { '5' } else if d == 6 { '6' } else if d == 7 { '7' } else if d
        == 8 { '8' } else { '9' }
}

/// Decimal digits of `n`, most significant first, no leading zeros.
pub open spec fn decimal(n: nat) -> Seq<char>
    decreases n,
{
    if n < 10 {
        seq![digit_char(n)]
    } else {
        decimal(n / 10).push(digit_char(n % 10))
    }
}

fn digit_of(d: usize) -> (c: char)
    requires
        d < 10,
    ensures
        c == digit_char(d as nat),
{
    if d == 0 { '0' } else if d == 1 { '1' } else if d == 2 { '2' } else if d == 3 { '3' } else if d
        == 4 { '4' } else if d == 5 { '5' } else if d == 6 { '6' } else if d == 7 { '7' } else if d
        == 8 { '8' } else { '9' }
}

/// The decimal representation of `n`.
pub fn decimal_chars(n: usize) -> (r: Vec<char>)
    ensures
        r@ == decimal(n as nat),
    decreases n,
{
    if n < 10 {
        vec![digit_of(n)]
    } else {
        let mut r = decimal_chars(n / 10);
        r.push(digit_of(n % 10));
        r
    }
}

/// Zeros in front of `d` up to `width` characters.
pub open spec fn zero_pad(d: Seq<char>, width: nat) -> Seq<char>
    decreases width - d.len(),
{
    if d.len() >= width {
        d
    } else {
        zero_pad(seq!['0'] + d, width)
    }
}

/// `d` with leading zeros up to `width` characters.
pub fn zero_padded(d: Vec<char>, width: usize) -> (r: Vec<char>)
    ensures
        r@ == zero_pad(d@, width as nat),
    decreases width - d@.len(),
{
    if d.len() >= width {
        d
    } else {
        let mut z = vec!['0'];
        assert(z@ =~= seq!['0']);
        push_all(&mut z, d.as_slice());
        assert(z@ =~= seq!['0'] + d@);
        zero_padded(z, width)
    }
}

} // verus!

verus! {

/// First index `>= from` where `p` occurs in `s`.
pub fn find_seq(s: &[char], p: &[char], from: usize) -> (r: Option<usize>)
    requires
        from <= s@.len(),
    ensures
        match r {
            Some(k) => find_from(s@, p@, from as int) == Some(k as int),
            None => find_from(s@, p@, from as int) is None,
        },
{
    let mut i = from;
    while i < s.len() && p.len() <= s.len() - i
        invariant
            from <= i <= s@.len(),
            find_from(s@, p@, from as int) == find_from(s@, p@, i as int),
        decreases s@.len() - i,
    {
        if matches_at(s, i, p) {
            return Some(i);
        }
        i = i + 1;
    }
    if p.len() == 0 && i == s.len() {
        assert(occurs_at(s@, p@, i as int)) by {
            assert(s@.subrange(i as int, i as int) =~= p@);
        }
        return Some(i);
    }
    None
}

pub fn find_char(s: &[char], c: char, from: usize) -> (r: Option<usize>)
    requires
        from <= s@.len(),
    ensures
        match r {
            Some(k) => find_from(s@, seq![c], from as int) == Some(k as int),
            None => find_from(s@, seq![c], from as int) is None,
        },
{
    let p = vec![c];
    assert(p@ =~= seq![c]);
    find_seq(s, p.as_slice(), from)
}


// ---------------------------------------------------------------- UTF-8 lengths

/// How many bytes UTF-8 takes for `c`.
pub open spec fn char_width(c: char) -> nat {
    if (c as u32) < 0x80 {
        1
    } else if (c as u32) < 0x800 {
        2
    } else if (c as u32) < 0x10000 {
        3
    } else {
        4
    }
}

/// How many bytes UTF-8 takes for `s`.
pub open spec fn utf8_len(s: Seq<char>) -> nat
    decreases s.len(),
{
    if s.len() == 0 {
        0
    } else {
        utf8_len(s.drop_last()) + char_width(s.last())
    }
}

/// The UTF-8 length of `s` as a `usize` (no text held in memory reaches the bound).
pub open spec fn byte_len(s: Seq<char>) -> usize {
    if utf8_len(s) <= usize::MAX {
        utf8_len(s) as usize
    } else {
        usize::MAX
    }
}

/// The 1-based byte column just after the text `prefix`.
pub open spec fn byte_column(prefix: Seq<char>) -> usize {
    if utf8_len(prefix) + 1 <= usize::MAX {
        (utf8_len(prefix) + 1) as usize
    } else {
        usize::MAX
    }
}

pub fn char_width_exec(c: char) -> (r: usize)
    ensures
        r == char_width(c),
{
    let u = c as u32;
    if u < 0x80 {
        1
    } else if u < 0x800 {
        2
    } else if u < 0x10000 {
        3
    } else {
        4
    }
}

/// The UTF-8 length of the first `end` characters of `s`, as `byte_len` gives it.
pub fn byte_len_exec(s: &[char], end: usize) -> (r: usize)
    requires
        end <= s@.len(),
    ensures
        r == byte_len(s@.subrange(0, end as int)),
{
    let mut acc: usize = 0;
    let mut i: usize = 0;
    while i < end
        invariant
            i <= end <= s@.len(),
            acc == byte_len(s@.subrange(0, i as int)),
        decreases end - i,
    {
        assert(s@.subrange(0, i + 1).drop_last() =~= s@.subrange(0, i as int));
        assert(s@.subrange(0, i + 1).last() == s@[i as int]);
        let w = char_width_exec(s[i]);
        acc = match acc.checked_add(w) {
            Some(x) => x,
            None => usize::MAX,
        };
        i = i + 1;
    }
    acc
}

/// The 1-based byte column after the first `end` characters of `s`.
pub fn byte_column_exec(s: &[char], end: usize) -> (r: usize)
    requires
        end <= s@.len(),
    ensures
        r == byte_column(s@.subrange(0, end as int)),
{
    let b = byte_len_exec(s, end);
    if b < usize::MAX {
        b + 1
    } else {
        usize::MAX
    }
}

} // verus!
