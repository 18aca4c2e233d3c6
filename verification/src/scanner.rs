//! The per-file scan: declaration headings, nested section headings and
//! citations, line by line, plus the helpers the walk and the checker share.
use vstd::prelude::*;
use crate::comment_blocks;
use crate::grammar;
use crate::grammar::{char_is_digit, CharClass, Grammar, scan_run};
use crate::model;
use crate::model::{Config, Id};
use crate::text;

verus! {

/// Index of the last `c` in `s` before `e`.
pub open spec fn last_index_before(s: Seq<char>, c: char, e: int) -> Option<int>
    decreases e,
{
    if e <= 0 || e > s.len() {
        None
    } else if s[e - 1] == c {
        Some(e - 1)
    } else {
        last_index_before(s, c, e - 1)
    }
}

proof fn lemma_last_index_before(s: Seq<char>, c: char, e: int)
    ensures
        last_index_before(s, c, e) matches Some(k) ==> 0 <= k < e && k < s.len() && s[k] == c,
    decreases e,
{
    if e > 0 && e <= s.len() && s[e - 1] != c {
        lemma_last_index_before(s, c, e - 1);
    }
}

pub fn last_index_of(s: &[char], c: char) -> (r: Option<usize>)
    ensures
        match r {
            Some(k) => last_index_before(s@, c, s@.len() as int) == Some(k as int) && k < s@.len(),
            None => last_index_before(s@, c, s@.len() as int) is None,
        },
{
    proof {
        lemma_last_index_before(s@, c, s@.len() as int);
    }
    let mut e = s.len();
    while e > 0
        invariant
            e <= s@.len(),
            last_index_before(s@, c, s@.len() as int) == last_index_before(s@, c, e as int),
        decreases e,
    {
        if s[e - 1] == c {
            return Some(e - 1);
        }
        e = e - 1;
    }
    None
}

/// The last component of a `/`-separated path.
pub open spec fn file_name(p: Seq<char>) -> Seq<char> {
    match last_index_before(p, '/', p.len() as int) {
        Some(k) => p.subrange(k + 1, p.len() as int),
        None => p,
    }
}

/// `Path::extension`: the text after the last `.` of the file name, unless the name
/// has no `.` or its only `.` is the leading one.
pub open spec fn extension(p: Seq<char>) -> Option<Seq<char>> {
    let n = file_name(p);
    match last_index_before(n, '.', n.len() as int) {
        Some(d) => if d == 0 {
            None
        } else {
            Some(n.subrange(d + 1, n.len() as int))
        },
        None => None,
    }
}

pub fn file_name_of(p: &[char]) -> (r: Vec<char>)
    ensures
        r@ == file_name(p@),
{
    let n = p.len();
    match last_index_of(p, '/') {
        Some(k) => text::slice_range(p, k + 1, n),
        None => text::slice_range(p, 0, p.len()),
    }
}

pub fn extension_of(p: &[char]) -> (r: Option<Vec<char>>)
    ensures
        match r {
            Some(e) => extension(p@) == Some(e@),
            None => extension(p@) is None,
        },
{
    let n = file_name_of(p);
    proof {
        assert(p@.subrange(0, p@.len() as int) =~= p@);
    }
    let len = n.len();
    match last_index_of(n.as_slice(), '.') {
        Some(d) => if d == 0 {
            None
        } else {
            Some(text::slice_range(n.as_slice(), d + 1, n.len()))
        },
        None => None,
    }
}

/// Whether the path's extension is exactly `e`.
pub fn has_extension(p: &[char], e: &[char]) -> (r: bool)
    ensures
        r == (extension(p@) == Some(e@)),
{
    match extension_of(p) {
        Some(x) => {
            let same = x.len() == e.len() && text::matches_at(x.as_slice(), 0, e);
            proof {
                if x@.len() == e@.len() {
                    assert(x@.subrange(0, e@.len() as int) =~= x@);
                }
            }
            same
        },
        None => false,
    }
}

/// A dotfile or dot-directory: its name starts with `.`.
pub open spec fn spec_is_hidden(p: Seq<char>) -> bool {
    let n = file_name(p);
    n.len() > 0 && n[0] == '.'
}

/// Whether a path names a dotfile or dot-directory.
pub fn is_hidden(p: &str) -> (r: bool)
    ensures
        r == spec_is_hidden(p@),
{
    let pv = text::chars_of(p);
    let n = file_name_of(pv.as_slice());
    n.len() > 0 && n[0] == '.'
}

/// Whether a file is one the scanner reads: not hidden, and its extension is one
/// of `[scan] extensions` (a missing extension counts as the empty one).
pub open spec fn spec_is_scannable(p: Seq<char>, exts: Seq<Seq<char>>) -> bool {
    let ext = match extension(p) {
        Some(e) => e,
        None => Seq::empty(),
    };
    !spec_is_hidden(p) && exts.contains(ext)
}

pub fn is_scannable(p: &str, config: &Config) -> (r: bool)
    ensures
        r == spec_is_scannable(p@, model::str_views(config.extensions@)),
{
    is_scannable_in(p, &config.extensions)
}

/// Whether a file is scannable under the given list of extensions.
pub fn is_scannable_in(p: &str, extensions: &Vec<String>) -> (r: bool)
    ensures
        r == spec_is_scannable(p@, model::str_views(extensions@)),
{
    if is_hidden(p) {
        return false;
    }
    let pv = text::chars_of(p);
    let ext = match extension_of(pv.as_slice()) {
        Some(e) => e,
        None => Vec::new(),
    };
    let ghost want = match extension(p@) {
        Some(e) => e,
        None => Seq::<char>::empty(),
    };
    assert(ext@ == want);
    let mut i: usize = 0;
    while i < extensions.len()
        invariant
            i <= extensions@.len(),
            ext@ == want,
            want == match extension(p@) {
                Some(e) => e,
                None => Seq::<char>::empty(),
            },
            !spec_is_hidden(p@),
            forall|k: int| 0 <= k < i ==> model::str_views(extensions@)[k] != want,
        decreases extensions@.len() - i,
    {
        let allowed = text::chars_of(extensions[i].as_str());
        assert(model::str_views(extensions@)[i as int] == allowed@);
        if allowed.len() == ext.len() && text::matches_at(allowed.as_slice(), 0, ext.as_slice()) {
            assert(allowed@.subrange(0, ext@.len() as int) =~= allowed@);
            assert(model::str_views(extensions@)[i as int] == want);
            assert(model::str_views(extensions@).contains(want));

            return true;
        }
        assert(allowed@ != want) by {
            if allowed@ == want {
                assert(allowed@.subrange(0, ext@.len() as int) =~= allowed@);
            }
        }
        i = i + 1;
    }
    false
}

/// Whether `c` is one of the `/`-separated components of `p`.
pub open spec fn has_component(p: Seq<char>, c: Seq<char>) -> bool {
    exists|i: int|
        #![trigger text::occurs_at(p, c, i)]
        text::occurs_at(p, c, i) && (i == 0 || p[i - 1] == '/') && (i + c.len() == p.len() || p[i
            + c.len()] == '/')
}

pub fn path_has_component(p: &[char], c: &[char]) -> (r: bool)
    ensures
        r == has_component(p@, c@),
{
    let n = p.len();
    let mut i: usize = 0;
    while i < n
        invariant
            n == p@.len(),
            forall|k: int|
                0 <= k < i ==> !(text::occurs_at(p@, c@, k) && (k == 0 || p@[k - 1] == '/') && (k
                    + c@.len() == p@.len() || p@[k + c@.len()] == '/')),
        decreases p@.len() - i,
    {
        if text::matches_at(p, i, c) && (i == 0 || p[i - 1] == '/') && (i + c.len() == n
            || p[i + c.len()] == '/') {
            return true;
        }
        i = i + 1;
    }
    if text::matches_at(p, n, c) && (n == 0 || p[n - 1] == '/') {
        return true;
    }
    assert forall|k: int| #![trigger text::occurs_at(p@, c@, k)] text::occurs_at(p@, c@, k) implies !((k == 0 || p@[k - 1] == '/') && (k
        + c@.len() == p@.len() || p@[k + c@.len()] == '/')) by {
        assert(k <= p@.len());
        if k == p@.len() {
            assert(c@.len() == 0);
        }
    }
    false
}

} // verus!

verus! {

/// Start of the trailing run of digits and dots in `t[..e]`.
pub open spec fn trailing_sec_start(t: Seq<char>, e: int) -> int
    decreases e,
{
    if e <= 0 || e > t.len() {
        if e <= 0 { 0 } else { t.len() as int }
    } else if grammar::is_digit(t[e - 1]) || t[e - 1] == '.' {
        trailing_sec_start(t, e - 1)
    } else {
        e
    }
}

proof fn lemma_trailing_sec_start(t: Seq<char>, e: int)
    requires
        0 <= e <= t.len(),
    ensures
        0 <= trailing_sec_start(t, e) <= e,
        forall|k: int| trailing_sec_start(t, e) <= k < e ==> grammar::is_digit(#[trigger] t[k]) || t[k] == '.',
    decreases e,
{
    if e > 0 && (grammar::is_digit(t[e - 1]) || t[e - 1] == '.') {
        lemma_trailing_sec_start(t, e - 1);
    }
}

/// A dotted path of digit groups: non-empty, no empty group.
pub open spec fn dotted_digits(sec: Seq<char>) -> bool {
    &&& sec.len() > 0
    &&& forall|k: int| 0 <= k < sec.len() ==> (grammar::is_digit(#[trigger] sec[k]) || sec[k] == '.')
    &&& forall|k: int| 0 <= k < sec.len() && #[trigger] sec[k] == '.' ==> 0 < k < sec.len() - 1 && sec[k + 1] != '.'
}

/// Split a trailing `.<section>` (dot-separated digit groups) off a token.
pub open spec fn split_loose_section(t: Seq<char>) -> (Seq<char>, Option<Seq<char>>) {
    let ss = trailing_sec_start(t, t.len() as int);
    let suffix = t.subrange(ss, t.len() as int);
    if suffix.len() > 0 && suffix[0] == '.' && dotted_digits(suffix.subrange(1, suffix.len() as int)) {
        (t.subrange(0, ss), Some(suffix.subrange(1, suffix.len() as int)))
    } else {
        (t, None)
    }
}

fn check_dotted_digits(sec: &[char]) -> (r: bool)
    requires
        forall|k: int| 0 <= k < sec@.len() ==> (grammar::is_digit(#[trigger] sec@[k]) || sec@[k] == '.'),
    ensures
        r == dotted_digits(sec@),
{
    let n = sec.len();
    if n == 0 {
        return false;
    }
    let mut k: usize = 0;
    while k < n
        invariant
            n == sec@.len(),
            k <= n,
            forall|m: int| 0 <= m < k && #[trigger] sec@[m] == '.' ==> 0 < m < sec@.len() - 1 && sec@[m + 1] != '.',
        decreases n - k,
    {
        if sec[k] == '.' {
            if k == 0 || k == n - 1 || sec[k + 1] == '.' {
                return false;
            }
        }
        k = k + 1;
    }
    true
}

/// Splits a trailing `.<section>` off a loosely parsed token.
pub fn split_loose_section_of(t: &[char]) -> (r: (Vec<char>, Option<Vec<char>>))
    ensures
        r.0@ == split_loose_section(t@).0,
        match r.1 {
            Some(s) => split_loose_section(t@).1 == Some(s@),
            None => split_loose_section(t@).1 is None,
        },
{
    let n = t.len();
    let mut ss = n;
    proof {
        lemma_trailing_sec_start(t@, n as int);
    }
    while ss > 0 && (char_is_digit(t[ss - 1]) || t[ss - 1] == '.')
        invariant
            ss <= n == t@.len(),
            trailing_sec_start(t@, ss as int) == trailing_sec_start(t@, n as int),
        decreases ss,
    {
        ss = ss - 1;
    }
    let suffix = text::slice_range(t, ss, n);
    if suffix.len() > 0 && suffix[0] == '.' {
        let sec = text::slice_range(suffix.as_slice(), 1, suffix.len());
        if check_dotted_digits(sec.as_slice()) {
            return (text::slice_range(t, 0, ss), Some(sec));
        }
    }
    (text::slice_range(t, 0, n), None)
}

} // verus!

verus! {

pub open spec fn is_trailing_punct(c: char) -> bool {
    c == '.' || c == ',' || c == ';' || c == ':' || c == '!' || c == '?'
}

/// `e` with trailing `.,;:!?` characters dropped.
pub open spec fn trim_punct(r: Seq<char>, e: int) -> int
    decreases e,
{
    if e > 0 && e <= r.len() && is_trailing_punct(r[e - 1]) {
        trim_punct(r, e - 1)
    } else {
        e
    }
}

/// Index of the first `-` or `_`.
pub open spec fn first_sep(t: Seq<char>, i: int) -> Option<int>
    decreases t.len() - i,
{
    if i < 0 || i >= t.len() {
        None
    } else if t[i] == '-' || t[i] == '_' {
        Some(i)
    } else {
        first_sep(t, i + 1)
    }
}

pub open spec fn all_kind_chars(t: Seq<char>) -> bool {
    forall|k: int| 0 <= k < t.len() ==> grammar::is_kind_char(#[trigger] t[k])
}

pub open spec fn all_digits(t: Seq<char>) -> bool {
    forall|k: int| 0 <= k < t.len() ==> grammar::is_digit(#[trigger] t[k])
}

/// The member-local fallback ID parser: `KIND[-NUM]-SLUG[.section]`, with an
/// upper-case-or-digit kind, `-` or `_` between parts, a non-empty slug. Returns the
/// ID, its section and the length of the token it read.
pub open spec fn loose_id_prefix(raw: Seq<char>) -> Option<(model::IdV, Option<Seq<char>>, int)> {
    let end0 = grammar::run_end(CharClass::Loose, raw, 0);
    let end = trim_punct(raw, end0);
    let token = raw.subrange(0, end);
    let (id_text, section) = split_loose_section(token);
    match first_sep(id_text, 0) {
        Some(m) => {
            let kind = id_text.subrange(0, m);
            let rest = id_text.subrange(m + 1, id_text.len() as int);
            if kind.len() == 0 || rest.len() == 0 || !all_kind_chars(kind) {
                None
            } else {
                let (num, slug) = match first_sep(rest, 0) {
                    Some(m2) => if all_digits(rest.subrange(0, m2)) {
                        (
                            if m2 > 0 && grammar::digits_value(rest.subrange(0, m2)) <= u32::MAX {
                                Some(grammar::digits_value(rest.subrange(0, m2)) as u32)
                            } else {
                                None
                            },
                            rest.subrange(m2 + 1, rest.len() as int),
                        )
                    } else {
                        (None, rest)
                    },
                    None => (None, rest),
                };
                if slug.len() == 0 {
                    None
                } else {
                    Some((model::IdV { kind, num, slug: Some(slug) }, section, end))
                }
            }
        },
        None => None,
    }
}

proof fn lemma_trim_punct(r: Seq<char>, e: int)
    requires
        0 <= e <= r.len(),
    ensures
        0 <= trim_punct(r, e) <= e,
    decreases e,
{
    if e > 0 && is_trailing_punct(r[e - 1]) {
        lemma_trim_punct(r, e - 1);
    }
}

proof fn lemma_first_sep(t: Seq<char>, i: int)
    requires
        0 <= i,
    ensures
        first_sep(t, i) matches Some(k) ==> i <= k < t.len(),
    decreases t.len() - i,
{
    if i < t.len() && !(t[i] == '-' || t[i] == '_') {
        lemma_first_sep(t, i + 1);
    }
}

fn find_first_sep(t: &[char]) -> (r: Option<usize>)
    ensures
        match r {
            Some(k) => first_sep(t@, 0) == Some(k as int) && k < t@.len(),
            None => first_sep(t@, 0) is None,
        },
{
    proof {
        lemma_first_sep(t@, 0);
    }
    let mut i: usize = 0;
    while i < t.len()
        invariant
            i <= t@.len(),
            first_sep(t@, 0) == first_sep(t@, i as int),
        decreases t@.len() - i,
    {
        if t[i] == '-' || t[i] == '_' {
            return Some(i);
        }
        i = i + 1;
    }
    None
}

fn check_all(t: &[char], kind_chars: bool) -> (r: bool)
    ensures
        r == (if kind_chars { all_kind_chars(t@) } else { all_digits(t@) }),
{
    let mut i: usize = 0;
    while i < t.len()
        invariant
            i <= t@.len(),
            forall|k: int| 0 <= k < i ==> (if kind_chars { grammar::is_kind_char(#[trigger] t@[k]) } else { grammar::is_digit(t@[k]) }),
        decreases t@.len() - i,
    {
        let c = t[i];
        let ok = if kind_chars {
            ('A' <= c && c <= 'Z') || ('0' <= c && c <= '9')
        } else {
            '0' <= c && c <= '9'
        };
        if !ok {
            return false;
        }
        i = i + 1;
    }
    true
}

/// A loosely parsed qualified-ID tail, as `loose_id_prefix` defines it.
#[verifier::spinoff_prover]
pub fn parse_loose_qualified_id_prefix(raw: &[char]) -> (r: Option<(Id, Option<String>, usize)>)
    ensures
        match r {
            Some((id, sec, len)) => loose_id_prefix(raw@) == Some(
                (id@, model::opt_view(sec), len as int),
            ),
            None => loose_id_prefix(raw@) is None,
        },
{
    let end0 = scan_run(&CharClass::Loose, raw, 0);
    let mut end = end0;
    proof {
        lemma_trim_punct(raw@, end0 as int);
    }
    while end > 0 && (raw[end - 1] == '.' || raw[end - 1] == ',' || raw[end - 1] == ';' || raw[end
        - 1] == ':' || raw[end - 1] == '!' || raw[end - 1] == '?')
        invariant
            end <= end0 <= raw@.len(),
            trim_punct(raw@, end as int) == trim_punct(raw@, end0 as int),
        decreases end,
    {
        end = end - 1;
    }
    let token = text::slice_range(raw, 0, end);
    let (id_text, section) = split_loose_section_of(token.as_slice());
    let m = match find_first_sep(id_text.as_slice()) {
        Some(m) => m,
        None => {
            return None;
        },
    };
    let n = id_text.len();
    assert(m < n);
    let kind = text::slice_range(id_text.as_slice(), 0, m);
    let rest = text::slice_range(id_text.as_slice(), m + 1, n);
    if kind.len() == 0 || rest.len() == 0 || !check_all(kind.as_slice(), true) {
        return None;
    }
    let (num, slug) = match find_first_sep(rest.as_slice()) {
        Some(m2) => {
            let maybe = text::slice_range(rest.as_slice(), 0, m2);
            if check_all(maybe.as_slice(), false) {
                assert forall|k: int| 0 <= k < m2 implies grammar::is_digit(#[trigger] rest@[k]) by {
                    assert(maybe@[k] == rest@[k]);
                }
                let n = if m2 > 0 {
                    grammar::parse_u32_digits(rest.as_slice(), 0, m2)
                } else {
                    None
                };
                (n, text::slice_range(rest.as_slice(), m2 + 1, rest.len()))
            } else {
                (None, text::slice_range(rest.as_slice(), 0, rest.len()))
            }
        },
        None => (None, text::slice_range(rest.as_slice(), 0, rest.len())),
    };
    if slug.len() == 0 {
        return None;
    }
    let sec = match section {
        Some(s) => Some(text::string_from_chars(s.as_slice())),
        None => None,
    };
    proof {
        assert(rest@.subrange(0, rest@.len() as int) =~= rest@);
    }
    Some(
        (
            Id {
                kind: text::string_from_chars(kind.as_slice()),
                num,
                slug: Some(text::string_from_chars(slug.as_slice())),
            },
            sec,
            end,
        ),
    )
}

} // verus!

verus! {

/// `str::trim_start_matches(p)`: every leading copy of `p` removed.
pub open spec fn strip_repeated(s: Seq<char>, p: Seq<char>) -> Seq<char>
    decreases s.len(),
{
    if p.len() > 0 && text::starts_with(s, p) {
        strip_repeated(s.subrange(p.len() as int, s.len() as int), p)
    } else {
        s
    }
}

pub fn strip_repeated_prefix(s: &[char], p: &[char]) -> (r: Vec<char>)
    ensures
        r@ == strip_repeated(s@, p@),
{
    let mut i: usize = 0;
    let n = s.len();
    assert(s@.subrange(0, n as int) =~= s@);
    while p.len() > 0 && text::matches_at(s, i, p)
        invariant
            i <= n == s@.len(),
            strip_repeated(s@.subrange(i as int, n as int), p@) == strip_repeated(s@, p@),
        decreases n - i,
    {
        let ghost cur = s@.subrange(i as int, n as int);
        assert(cur.subrange(0, p@.len() as int) =~= s@.subrange(i as int, i + p@.len()));
        assert(cur.subrange(p@.len() as int, cur.len() as int) =~= s@.subrange(i + p@.len(), n as int));
        i = i + p.len();
    }
    proof {
        let cur = s@.subrange(i as int, n as int);
        if p@.len() > 0 && text::starts_with(cur, p@) {
            assert(cur.subrange(0, p@.len() as int) =~= s@.subrange(i as int, i + p@.len()));
        }
    }
    text::slice_range(s, i, n)
}

/// The section path without its dots (`2.1` → `21`).
pub open spec fn not_dot() -> spec_fn(char) -> bool {
    |c: char| c != '.'
}

pub open spec fn without_dots(s: Seq<char>) -> Seq<char> {
    s.filter(not_dot())
}

/// The text a section heading's anchor is derived from: `<section without dots>
/// <heading text>`, trimmed, where the heading text is what follows the leading
/// `#`s, the section path and its trailing dots.
pub open spec fn section_anchor_text(line: Seq<char>, section: Seq<char>) -> Seq<char> {
    let t1 = text::trim_start(line);
    let t2 = text::trim_start(strip_repeated(t1, seq!['#']));
    let t3 = strip_repeated(t2, section);
    let t4 = text::trim_start(strip_repeated(t3, seq!['.']));
    text::trim(without_dots(section) + seq![' '] + t4)
}

pub fn remove_dots(s: &[char]) -> (r: Vec<char>)
    ensures
        r@ == without_dots(s@),
{
    let mut out: Vec<char> = Vec::new();
    let mut i: usize = 0;
    while i < s.len()
        invariant
            i <= s@.len(),
            out@ == without_dots(s@.subrange(0, i as int)),
        decreases s@.len() - i,
    {
        proof {
            assert(s@.subrange(0, i + 1) =~= s@.subrange(0, i as int).push(s@[i as int]));
            s@.subrange(0, i as int).lemma_filter_push(s@[i as int], not_dot());
        }
        if s[i] != '.' {
            out.push(s[i]);
        }
        i = i + 1;
    }
    assert(s@.subrange(0, s@.len() as int) =~= s@);
    out
}

} // verus!

verus! {

/// A copy of `s` without leading whitespace.
pub fn trim_start_chars(s: &[char]) -> (r: Vec<char>)
    ensures
        r@ == text::trim_start(s@),
{
    let a = text::skip_whitespace(s, 0);
    text::slice_range(s, a, s.len())
}

/// A copy of `s` without surrounding whitespace.
pub fn trim_chars(s: &[char]) -> (r: Vec<char>)
    ensures
        r@ == text::trim(s@),
{
    let t = trim_start_chars(s);
    let e = text::trim_end_index(t.as_slice(), t.len());
    text::slice_range(t.as_slice(), 0, e)
}

/// The anchor text of a section heading line, as `section_anchor_text` defines it.
pub fn section_anchor_text_of(line: &[char], section: &[char]) -> (r: Vec<char>)
    ensures
        r@ == section_anchor_text(line@, section@),
{
    let t1 = trim_start_chars(line);
    let hash = vec!['#'];
    let dot = vec!['.'];
    assert(hash@ =~= seq!['#']);
    assert(dot@ =~= seq!['.']);
    let t2a = strip_repeated_prefix(t1.as_slice(), hash.as_slice());
    let t2 = trim_start_chars(t2a.as_slice());
    let t3 = strip_repeated_prefix(t2.as_slice(), section);
    let t4a = strip_repeated_prefix(t3.as_slice(), dot.as_slice());
    let t4 = trim_start_chars(t4a.as_slice());
    let mut out = remove_dots(section);
    out.push(' ');
    text::push_all(&mut out, t4.as_slice());
    assert(out@ =~= without_dots(section@) + seq![' '] + t4@);
    trim_chars(out.as_slice())
}

} // verus!

verus! {

/// What the per-line scan of one file needs to know.
pub ghost struct ScanCtx {
    pub g: grammar::GrammarV,
    pub prefixes: Seq<Seq<char>>,
    pub marker: Seq<char>,
    pub strict: bool,
    pub docstring_python: bool,
    pub is_md: bool,
    pub is_py: bool,
    pub in_docs: bool,
    pub path: Seq<char>,
    /// In a workspace scan, the projects a `<marker><alias>/<ID>` citation may name:
    /// each alias with its ID grammar. Empty when a project is scanned on its own.
    pub targets: Seq<(Seq<char>, grammar::GrammarV)>,
}

/// The scan's state between lines.
pub ghost struct ScanState {
    pub in_fence: bool,
    pub in_doc: bool,
    pub current: Option<model::DeclarationV>,
    pub decls: Seq<model::DeclarationV>,
    pub cits: Seq<model::CitationV>,
}

pub open spec fn fence_a() -> Seq<char> {
    seq!['`', '`', '`']
}

pub open spec fn fence_b() -> Seq<char> {
    seq!['~', '~', '~']
}

pub open spec fn doc_a() -> Seq<char> {
    seq!['"', '"', '"']
}

pub open spec fn doc_b() -> Seq<char> {
    seq!['\'', '\'', '\'']
}

/// The index of section `key` in a declaration's section list.
pub open spec fn section_index(secs: Seq<(Seq<char>, Seq<char>, usize, usize)>, key: Seq<char>, i: int) -> Option<int>
    decreases secs.len() - i,
{
    if i < 0 || i >= secs.len() {
        None
    } else if secs[i].0 == key {
        Some(i)
    } else {
        section_index(secs, key, i + 1)
    }
}

/// Map-insert of a section: an existing key keeps its place and takes the new value.
pub open spec fn insert_section(
    secs: Seq<(Seq<char>, Seq<char>, usize, usize)>,
    e: (Seq<char>, Seq<char>, usize, usize),
) -> Seq<(Seq<char>, Seq<char>, usize, usize)> {
    match section_index(secs, e.0, 0) {
        Some(j) => secs.update(j, e),
        None => secs.push(e),
    }
}

/// Whether the token's text is preceded by the citation marker.
pub open spec fn token_has_marker(c: ScanCtx, sl: Seq<char>, t: grammar::TokenV) -> bool {
    text::ends_with(sl.subrange(0, t.start), c.marker)
}

pub open spec fn token_start(c: ScanCtx, sl: Seq<char>, t: grammar::TokenV) -> int {
    if token_has_marker(c, sl, t) {
        t.start - c.marker.len()
    } else {
        t.start
    }
}

/// Whether a token on a non-declaration line is reported as a citation.
pub open spec fn keep_token(
    c: ScanCtx,
    sl: Seq<char>,
    n: nat,
    cur: Option<model::DeclarationV>,
    t: grammar::TokenV,
) -> bool {
    let has_marker = token_has_marker(c, sl, t);
    let start = token_start(c, sl, t);
    &&& !(c.targets.len() > 0 && t.namespace is Some)
    &&& !(t.namespace is Some && !has_marker)
    &&& !(c.strict && !has_marker)
    &&& !(!c.is_md && !has_marker && text::spec_inside_string_literal(sl, t.start))
    &&& !(t.namespace is Some && has_marker && (text::spec_inside_inline_code(sl, start) || (!c.is_md
        && text::spec_inside_string_literal(sl, start))))
    &&& !(cur matches Some(d) && d.line == n && model::id_key(d.id) == model::id_key(t.id))
}

pub open spec fn token_citation(c: ScanCtx, sl: Seq<char>, n: nat, t: grammar::TokenV) -> model::CitationV {
    let start = token_start(c, sl, t);
    model::CitationV {
        namespace: t.namespace,
        id: t.id,
        section: t.section,
        file: c.path,
        line: n as usize,
        column: text::byte_column(sl.subrange(0, start)),
        has_marker: token_has_marker(c, sl, t),
        text: sl.subrange(start, t.end),
    }
}

/// The citations the line's tokens yield, in token order.
pub open spec fn token_citations(
    c: ScanCtx,
    sl: Seq<char>,
    n: nat,
    cur: Option<model::DeclarationV>,
    toks: Seq<grammar::TokenV>,
) -> Seq<model::CitationV>
    decreases toks.len(),
{
    if toks.len() == 0 {
        Seq::empty()
    } else {
        let prev = token_citations(c, sl, n, cur, toks.drop_last());
        if keep_token(c, sl, n, cur, toks.last()) {
            prev.push(token_citation(c, sl, n, toks.last()))
        } else {
            prev
        }
    }
}

/// Non-overlapping occurrences of `m` in `s` from `from` on, left to right.
pub open spec fn occurrences_from(s: Seq<char>, m: Seq<char>, from: int) -> Seq<int>
    decreases s.len() + 1 - from,
{
    if m.len() == 0 || from < 0 {
        Seq::empty()
    } else {
        match text::find_from(s, m, from) {
            Some(k) => if k >= from && k + m.len() <= s.len() {
                seq![k] + occurrences_from(s, m, k + m.len())
            } else {
                Seq::empty()
            },
            None => Seq::empty(),
        }
    }
}

/// A marker-qualified citation `<marker><alias>/<loose ID>` at marker position `ms`.
pub open spec fn fallback_citation(c: ScanCtx, sl: Seq<char>, n: nat, ms: int) -> Option<model::CitationV> {
    let ts = ms + c.marker.len();
    if ts > sl.len() {
        None
    } else {
        let rest = sl.subrange(ts, sl.len() as int);
        let q = grammar::run_end(CharClass::AliasChar, rest, 0);
        if rest.len() > 0 && grammar::is_lower(rest[0]) && q < rest.len() && rest[q] == '/' {
            let id_start = ts + q + 1;
            match loose_id_prefix(sl.subrange(id_start, sl.len() as int)) {
                Some((id, sec, len)) => Some(
                    model::CitationV {
                        namespace: Some(rest.subrange(0, q)),
                        id,
                        section: sec,
                        file: c.path,
                        line: n as usize,
                        column: text::byte_column(sl.subrange(0, ms)),
                        has_marker: true,
                        text: sl.subrange(ms, id_start + len),
                    },
                ),
                None => None,
            }
        } else {
            None
        }
    }
}

/// Whether the main pass already reported a qualified citation at column `col`.
pub open spec fn seen_qualified(main: Seq<model::CitationV>, col: usize) -> bool {
    exists|k: int| 0 <= k < main.len() && #[trigger] main[k].namespace is Some && main[k].column == col
}

/// The member-local pass for `<marker><alias>/<ID>` citations the ID grammar did
/// not read, over marker positions `occ`.
pub open spec fn fallback_citations(
    c: ScanCtx,
    sl: Seq<char>,
    n: nat,
    main: Seq<model::CitationV>,
    occ: Seq<int>,
) -> Seq<model::CitationV>
    decreases occ.len(),
{
    if occ.len() == 0 {
        Seq::empty()
    } else {
        let prev = fallback_citations(c, sl, n, main, occ.drop_last());
        let ms = occ.last();
        if seen_qualified(main, text::byte_column(sl.subrange(0, ms))) || text::spec_inside_inline_code(sl, ms) || (!c.is_md
            && text::spec_inside_string_literal(sl, ms)) {
            prev
        } else {
            match fallback_citation(c, sl, n, ms) {
                Some(ct) => prev.push(ct),
                None => prev,
            }
        }
    }
}

/// The end of the first whitespace-free run of `s` from `i`.
pub open spec fn word_end(s: Seq<char>, i: int) -> int
    decreases s.len() - i,
{
    if i < 0 || i >= s.len() || text::is_ws(s[i]) {
        i
    } else {
        word_end(s, i + 1)
    }
}

/// The longest prefix of `raw` no longer than `e` that reads as a whole ID
/// argument under `g`: the ID, its section and the prefix's length.
pub open spec fn longest_parse_from(g: grammar::GrammarV, raw: Seq<char>, e: int) -> Option<(model::IdV, Option<Seq<char>>, int)>
    decreases e,
{
    if e <= 0 || e > raw.len() {
        None
    } else {
        match grammar::parse_id_arg(g, raw.subrange(0, e)) {
            Some((id, sec)) => Some((id, sec, e)),
            None => longest_parse_from(g, raw, e - 1),
        }
    }
}

/// The longest ID prefix of `raw` (within its first word) under `g`.
pub open spec fn longest_id_prefix(g: grammar::GrammarV, raw: Seq<char>) -> Option<(model::IdV, Option<Seq<char>>, int)> {
    longest_parse_from(g, raw, word_end(raw, 0))
}

/// The first target at or after `k` with alias `a`.
pub open spec fn target_index_from(tg: Seq<(Seq<char>, grammar::GrammarV)>, a: Seq<char>, k: int) -> Option<int>
    decreases tg.len() - k,
{
    if k < 0 || k >= tg.len() {
        None
    } else if tg[k].0 == a {
        Some(k)
    } else {
        target_index_from(tg, a, k + 1)
    }
}

/// The first target at or after `k` whose grammar reads an ID at the start of `raw`.
pub open spec fn first_parse_from(tg: Seq<(Seq<char>, grammar::GrammarV)>, raw: Seq<char>, k: int) -> Option<(model::IdV, Option<Seq<char>>, int)>
    decreases tg.len() - k,
{
    if k < 0 || k >= tg.len() {
        None
    } else {
        match longest_id_prefix(tg[k].1, raw) {
            Some(p) => Some(p),
            None => first_parse_from(tg, raw, k + 1),
        }
    }
}

/// The ID after `<alias>/`: read with that project's grammar, or with the first
/// grammar that reads one when no project has the alias.
pub open spec fn target_parse(tg: Seq<(Seq<char>, grammar::GrammarV)>, a: Seq<char>, raw: Seq<char>) -> Option<(model::IdV, Option<Seq<char>>, int)> {
    match target_index_from(tg, a, 0) {
        Some(k) => longest_id_prefix(tg[k].1, raw),
        None => first_parse_from(tg, raw, 0),
    }
}

/// A workspace citation `<marker><alias>/<ID>` at marker position `ms`.
pub open spec fn workspace_citation(c: ScanCtx, sl: Seq<char>, n: nat, ms: int) -> Option<model::CitationV> {
    let ts = ms + c.marker.len();
    if ts > sl.len() {
        None
    } else {
        let rest = sl.subrange(ts, sl.len() as int);
        let q = grammar::run_end(CharClass::AliasChar, rest, 0);
        if rest.len() > 0 && grammar::is_lower(rest[0]) && q < rest.len() && rest[q] == '/' {
            let id_start = ts + q + 1;
            match target_parse(c.targets, rest.subrange(0, q), sl.subrange(id_start, sl.len() as int)) {
                Some((id, sec, len)) => Some(
                    model::CitationV {
                        namespace: Some(rest.subrange(0, q)),
                        id,
                        section: sec,
                        file: c.path,
                        line: n as usize,
                        column: text::byte_column(sl.subrange(0, ms)),
                        has_marker: true,
                        text: sl.subrange(ms, id_start + len),
                    },
                ),
                None => None,
            }
        } else {
            None
        }
    }
}

/// The workspace pass over marker positions `occ`: each marker outside inline code
/// (and, outside Markdown, outside string literals) that starts a workspace citation.
pub open spec fn workspace_citations(c: ScanCtx, sl: Seq<char>, n: nat, occ: Seq<int>) -> Seq<model::CitationV>
    decreases occ.len(),
{
    if occ.len() == 0 {
        Seq::empty()
    } else {
        let prev = workspace_citations(c, sl, n, occ.drop_last());
        let ms = occ.last();
        if text::spec_inside_inline_code(sl, ms) || (!c.is_md && text::spec_inside_string_literal(sl, ms)) {
            prev
        } else {
            match workspace_citation(c, sl, n, ms) {
                Some(ct) => prev.push(ct),
                None => prev,
            }
        }
    }
}

/// Every citation on a non-declaration line: the tokens the ID grammar reads, then
/// the marker-qualified citations — read loosely when the project is scanned on
/// its own, with the named project's grammar in a workspace scan.
pub open spec fn line_citations(c: ScanCtx, sl: Seq<char>, n: nat, cur: Option<model::DeclarationV>) -> Seq<model::CitationV> {
    let main = token_citations(c, sl, n, cur, grammar::line_tokens(c.g, sl));
    if c.targets.len() == 0 {
        main + fallback_citations(c, sl, n, main, occurrences_from(sl, c.marker, 0))
    } else {
        main + workspace_citations(c, sl, n, occurrences_from(sl, c.marker, 0))
    }
}

/// One line of the scan.
pub open spec fn scan_step(c: ScanCtx, st: ScanState, line: Seq<char>, n: nat) -> ScanState {
    let trimmed = text::trim_start(line);
    if c.is_md && (text::starts_with(trimmed, fence_a()) || text::starts_with(trimmed, fence_b())) {
        ScanState { in_fence: !st.in_fence, ..st }
    } else if st.in_fence {
        st
    } else if c.docstring_python && c.is_py && (text::starts_with(trimmed, doc_a())
        || text::starts_with(trimmed, doc_b())) {
        ScanState { in_doc: !st.in_doc, ..st }
    } else {
        let sl = if st.in_doc { trimmed } else { line };
        let md_mode = c.is_md || st.in_doc;
        match grammar::declaration_at(c.g, sl, c.prefixes, md_mode) {
            Some(m) => {
                let decls = match st.current {
                    Some(d) => st.decls.push(d),
                    None => st.decls,
                };
                let tail = sl.subrange(m.id_end, sl.len() as int);
                let stub = if c.is_md && c.in_docs { grammar::stub_link(tail) } else { None };
                let d = model::DeclarationV {
                    id: m.id,
                    file: c.path,
                    line: n as usize,
                    heading_level: m.level as usize,
                    sections: Seq::empty(),
                    is_stub: stub is Some,
                    defined_in: stub,
                    e2e: None,
                    title: if stub is Some { None } else { grammar::decl_title(tail) },
                };
                ScanState { current: Some(d), decls, ..st }
            },
            None => {
                let cur = match (grammar::section_heading_at(c.g, sl, c.prefixes, md_mode), st.current) {
                    (Some((sec, lvl)), Some(d)) => if lvl > d.heading_level {
                        Some(
                            model::DeclarationV {
                                sections: insert_section(
                                    d.sections,
                                    (sec, section_anchor_text(sl, sec), n as usize, lvl as usize),
                                ),
                                ..d
                            },
                        )
                    } else {
                        st.current
                    },
                    _ => st.current,
                };
                ScanState { current: cur, cits: st.cits + line_citations(c, sl, n, cur), ..st }
            },
        }
    }
}

pub open spec fn initial_state() -> ScanState {
    ScanState { in_fence: false, in_doc: false, current: None, decls: Seq::empty(), cits: Seq::empty() }
}

/// The state after the first `k` lines.
pub open spec fn scan_upto(c: ScanCtx, lines: Seq<Seq<char>>, k: int) -> ScanState
    decreases k,
{
    if k <= 0 || k > lines.len() {
        initial_state()
    } else {
        scan_step(c, scan_upto(c, lines, k - 1), lines[k - 1], k as nat)
    }
}

/// Every citation in `cs` is of the file `path`.
pub open spec fn all_in_file(cs: Seq<model::CitationV>, path: Seq<char>) -> bool {
    forall|k: int| 0 <= k < cs.len() ==> (#[trigger] cs[k]).file == path
}

proof fn lemma_all_in_file_push(cs: Seq<model::CitationV>, x: model::CitationV, path: Seq<char>)
    requires
        all_in_file(cs, path),
        x.file == path,
    ensures
        all_in_file(cs.push(x), path),
{
    assert forall|k: int| 0 <= k < cs.push(x).len() implies (#[trigger] cs.push(x)[k]).file == path by {
        if k < cs.len() {
            assert(cs.push(x)[k] == cs[k]);
        }
    }
}

proof fn lemma_all_in_file_concat(a: Seq<model::CitationV>, b: Seq<model::CitationV>, path: Seq<char>)
    requires
        all_in_file(a, path),
        all_in_file(b, path),
    ensures
        all_in_file(a + b, path),
{
    assert forall|k: int| 0 <= k < (a + b).len() implies (#[trigger] (a + b)[k]).file == path by {
        if k < a.len() {
            assert((a + b)[k] == a[k]);
        } else {
            assert((a + b)[k] == b[k - a.len()]);
        }
    }
}

proof fn lemma_token_citations_file(c: ScanCtx, sl: Seq<char>, n: nat, cur: Option<model::DeclarationV>, toks: Seq<grammar::TokenV>)
    ensures
        all_in_file(token_citations(c, sl, n, cur, toks), c.path),
    decreases toks.len(),
{
    if toks.len() > 0 {
        lemma_token_citations_file(c, sl, n, cur, toks.drop_last());
        if keep_token(c, sl, n, cur, toks.last()) {
            lemma_all_in_file_push(token_citations(c, sl, n, cur, toks.drop_last()), token_citation(c, sl, n, toks.last()), c.path);
        }
    }
}

proof fn lemma_fallback_citations_file(c: ScanCtx, sl: Seq<char>, n: nat, main: Seq<model::CitationV>, occ: Seq<int>)
    ensures
        all_in_file(fallback_citations(c, sl, n, main, occ), c.path),
    decreases occ.len(),
{
    if occ.len() > 0 {
        let prev = fallback_citations(c, sl, n, main, occ.drop_last());
        lemma_fallback_citations_file(c, sl, n, main, occ.drop_last());
        match fallback_citation(c, sl, n, occ.last()) {
            Some(ct) => lemma_all_in_file_push(prev, ct, c.path),
            None => {},
        }
    }
}

proof fn lemma_workspace_citations_file(c: ScanCtx, sl: Seq<char>, n: nat, occ: Seq<int>)
    ensures
        all_in_file(workspace_citations(c, sl, n, occ), c.path),
    decreases occ.len(),
{
    if occ.len() > 0 {
        let prev = workspace_citations(c, sl, n, occ.drop_last());
        lemma_workspace_citations_file(c, sl, n, occ.drop_last());
        match workspace_citation(c, sl, n, occ.last()) {
            Some(ct) => lemma_all_in_file_push(prev, ct, c.path),
            None => {},
        }
    }
}

proof fn lemma_scan_upto_file(c: ScanCtx, lines: Seq<Seq<char>>, k: int)
    ensures
        all_in_file(scan_upto(c, lines, k).cits, c.path),
    decreases k,
{
    if 0 < k <= lines.len() {
        lemma_scan_upto_file(c, lines, k - 1);
        let st = scan_upto(c, lines, k - 1);
        let line = lines[k - 1];
        let trimmed = text::trim_start(line);
        let sl = if st.in_doc { trimmed } else { line };
        let md_mode = c.is_md || st.in_doc;
        let cur = match (grammar::section_heading_at(c.g, sl, c.prefixes, md_mode), st.current) {
            (Some((sec, lvl)), Some(d)) => if lvl > d.heading_level {
                Some(
                    model::DeclarationV {
                        sections: insert_section(
                            d.sections,
                            (sec, section_anchor_text(sl, sec), k as usize, lvl as usize),
                        ),
                        ..d
                    },
                )
            } else {
                st.current
            },
            _ => st.current,
        };
        let main = token_citations(c, sl, k as nat, cur, grammar::line_tokens(c.g, sl));
        lemma_token_citations_file(c, sl, k as nat, cur, grammar::line_tokens(c.g, sl));
        lemma_fallback_citations_file(c, sl, k as nat, main, occurrences_from(sl, c.marker, 0));
        lemma_workspace_citations_file(c, sl, k as nat, occurrences_from(sl, c.marker, 0));
        if c.targets.len() == 0 {
            lemma_all_in_file_concat(main, fallback_citations(c, sl, k as nat, main, occurrences_from(sl, c.marker, 0)), c.path);
        } else {
            lemma_all_in_file_concat(main, workspace_citations(c, sl, k as nat, occurrences_from(sl, c.marker, 0)), c.path);
        }
        lemma_all_in_file_concat(st.cits, line_citations(c, sl, k as nat, cur), c.path);
    }
}

/// Every citation a file's scan yields is of that file.
pub proof fn lemma_scan_text_file(c: ScanCtx, text: Seq<char>)
    ensures
        all_in_file(scan_text(c, text).1, c.path),
{
    let lines = text::spec_lines(text);
    lemma_scan_upto_file(c, lines, lines.len() as int);
}

/// Declarations (in heading order) and citations (in reading order) of one file.
pub open spec fn scan_text(c: ScanCtx, text: Seq<char>) -> (Seq<model::DeclarationV>, Seq<model::CitationV>) {
    let lines = text::spec_lines(text);
    let st = scan_upto(c, lines, lines.len() as int);
    let decls = match st.current {
        Some(d) => st.decls.push(d),
        None => st.decls,
    };
    (decls, st.cits)
}

} // verus!

verus! {

/// A project a workspace citation may name: its alias and its ID grammar.
pub struct WorkspaceTarget {
    alias: String,
    grammar: Grammar,
}

impl WorkspaceTarget {
    #[verifier::type_invariant]
    spec fn grammar_ready(self) -> bool {
        self.grammar.wf()
    }

    pub closed spec fn alias_view(self) -> Seq<char> {
        self.alias@
    }

    pub closed spec fn grammar_view(self) -> grammar::GrammarV {
        self.grammar@
    }

    pub fn new(alias: String, g: Grammar) -> (r: WorkspaceTarget)
        requires
            g.wf(),
        ensures
            r.alias_view() == alias@,
            r.grammar_view() == g@,
    {
        WorkspaceTarget { alias, grammar: g }
    }
}

pub open spec fn target_views(v: Seq<WorkspaceTarget>) -> Seq<(Seq<char>, grammar::GrammarV)> {
    Seq::new(v.len(), |k: int| (v[k].alias_view(), v[k].grammar_view()))
}

/// The executable side of `ScanCtx` (the grammar is passed alongside).
pub struct LineCtx<'a> {
    pub targets: &'a Vec<WorkspaceTarget>,
    pub prefixes: Vec<Vec<char>>,
    pub marker: Vec<char>,
    pub strict: bool,
    pub docstring_python: bool,
    pub is_md: bool,
    pub is_py: bool,
    pub in_docs: bool,
    pub path: String,
}

pub open spec fn ctx_view(g: &Grammar, l: &LineCtx) -> ScanCtx {
    ScanCtx {
        targets: target_views(l.targets@),
        g: g@,
        prefixes: text::views(l.prefixes@),
        marker: l.marker@,
        strict: l.strict,
        docstring_python: l.docstring_python,
        is_md: l.is_md,
        is_py: l.is_py,
        in_docs: l.in_docs,
        path: l.path@,
    }
}

pub open spec fn opt_decl_view(d: Option<model::Declaration>) -> Option<model::DeclarationV> {
    match d {
        Some(x) => Some(x@),
        None => None,
    }
}

fn keep_token_exec(
    g: &Grammar,
    l: &LineCtx,
    sl: &[char],
    n: usize,
    cur: &Option<model::Declaration>,
    t: &grammar::Token,
) -> (r: bool)
    requires
        t.start <= t.end <= sl@.len(),
    ensures
        r == keep_token(ctx_view(g, l), sl@, n as nat, opt_decl_view(*cur), t@),
{
    let has_marker = text::prefix_ends_with(sl, t.start, l.marker.as_slice());
    let start = if has_marker {
        t.start - l.marker.len()
    } else {
        t.start
    };
    if l.targets.len() > 0 && t.namespace.is_some() {
        return false;
    }
    if t.namespace.is_some() && !has_marker {
        return false;
    }
    if l.strict && !has_marker {
        return false;
    }
    if !l.is_md && !has_marker && text::is_inside_string_literal(sl, t.start) {
        return false;
    }
    if t.namespace.is_some() && has_marker && (text::is_inside_inline_code(sl, start) || (!l.is_md
        && text::is_inside_string_literal(sl, start))) {
        return false;
    }
    match cur {
        Some(d) => {
            if d.line == n && d.id.same(&t.id) {
                return false;
            }
        },
        None => {},
    }
    true
}

fn token_citation_exec(l: &LineCtx, sl: &[char], n: usize, t: &grammar::Token) -> (r: model::Citation)
    requires
        t.start < t.end <= sl@.len(),
    ensures
        forall|g: &Grammar| r@ == token_citation(#[trigger] ctx_view(g, l), sl@, n as nat, t@),
{
    let has_marker = text::prefix_ends_with(sl, t.start, l.marker.as_slice());
    let start = if has_marker {
        t.start - l.marker.len()
    } else {
        t.start
    };
    let len = sl.len();
    assert(start < len);
    let tv = text::slice_range(sl, start, t.end);
    model::Citation {
        namespace: model::copy_opt_string(&t.namespace),
        id: t.id.copy(),
        section: model::copy_opt_string(&t.section),
        file: model::copy_string(&l.path),
        line: n,
        column: text::byte_column_exec(sl, start),
        has_marker,
        text: text::string_from_chars(tv.as_slice()),
        inline_site: None,
    }
}

} // verus!

verus! {

fn token_citations_exec(
    g: &Grammar,
    l: &LineCtx,
    sl: &[char],
    n: usize,
    cur: &Option<model::Declaration>,
    toks: &Vec<grammar::Token>,
) -> (r: Vec<model::Citation>)
    requires
        forall|k: int| 0 <= k < toks@.len() ==> #[trigger] toks@[k].end <= sl@.len() && toks@[k].start < toks@[k].end,
    ensures
        model::citation_views(r@) == token_citations(
            ctx_view(g, l),
            sl@,
            n as nat,
            opt_decl_view(*cur),
            grammar::token_views(toks@),
        ),
{
    let ghost c = ctx_view(g, l);
    let ghost tv = grammar::token_views(toks@);
    let mut out: Vec<model::Citation> = Vec::new();
    let mut k: usize = 0;
    while k < toks.len()
        invariant
            k <= toks@.len(),
            c == ctx_view(g, l),
            tv == grammar::token_views(toks@),
            forall|m: int| 0 <= m < toks@.len() ==> #[trigger] toks@[m].end <= sl@.len() && toks@[m].start < toks@[m].end,
            model::citation_views(out@) == token_citations(
                c,
                sl@,
                n as nat,
                opt_decl_view(*cur),
                tv.subrange(0, k as int),
            ),
        decreases toks@.len() - k,
    {
        let t = &toks[k];
        assert(tv.subrange(0, k + 1).drop_last() =~= tv.subrange(0, k as int));
        assert(tv.subrange(0, k + 1).last() == t@);
        if keep_token_exec(g, l, sl, n, cur, t) {
            let ct = token_citation_exec(l, sl, n, t);
            let ghost before = out@;
            out.push(ct);
            assert(model::citation_views(out@) =~= model::citation_views(before).push(ct@));
        }
        k = k + 1;
    }
    assert(tv.subrange(0, k as int) =~= tv);
    out
}

proof fn lemma_occurrences_bounds(s: Seq<char>, m: Seq<char>, from: int)
    requires
        0 <= from,
    ensures
        forall|k: int| 0 <= k < occurrences_from(s, m, from).len() ==> from <= #[trigger] occurrences_from(s, m, from)[k] <= s.len(),
    decreases s.len() + 1 - from,
{
    if m.len() > 0 {
        text::lemma_find_from_bounds(s, m, from);
        match text::find_from(s, m, from) {
            Some(k) => if k >= from && k + m.len() <= s.len() {
                lemma_occurrences_bounds(s, m, k + m.len());
                let r = occurrences_from(s, m, from);
                assert forall|j: int| 0 <= j < r.len() implies from <= #[trigger] r[j] <= s.len() by {
                    if j > 0 {
                        assert(r[j] == occurrences_from(s, m, k + m.len())[j - 1]);
                    }
                }
            },
            None => {},
        }
    }
}

/// Non-overlapping occurrences of `m` in `s`, left to right (`str::match_indices`).
pub fn occurrences(s: &[char], m: &[char]) -> (r: Vec<usize>)
    ensures
        r@.map_values(|x: usize| x as int) == occurrences_from(s@, m@, 0),
        forall|k: int| 0 <= k < r@.len() ==> #[trigger] r@[k] <= s@.len(),
{
    let mut out: Vec<usize> = Vec::new();
    if m.len() == 0 {
        assert(out@.map_values(|x: usize| x as int) =~= Seq::<int>::empty());
        return out;
    }
    proof {
        lemma_occurrences_bounds(s@, m@, 0);
    }
    let slen = s.len();
    let mut from: usize = 0;
    loop
        invariant
            from <= s@.len(),
            slen == s@.len(),
            m@.len() > 0,
            out@.map_values(|x: usize| x as int) + occurrences_from(s@, m@, from as int)
                == occurrences_from(s@, m@, 0),
            forall|k: int| 0 <= k < out@.len() ==> #[trigger] out@[k] <= s@.len(),
        decreases s@.len() + 1 - from,
    {
        proof {
            text::lemma_find_from_bounds(s@, m@, from as int);
        }
        match text::find_seq(s, m, from) {
            Some(k) => {
                let ghost before = out@;
                out.push(k);
                assert(occurrences_from(s@, m@, from as int) == seq![k as int] + occurrences_from(
                    s@,
                    m@,
                    k + m@.len(),
                ));
                assert(out@.map_values(|x: usize| x as int) =~= before.map_values(|x: usize| x as int).push(k as int));
                assert(out@.map_values(|x: usize| x as int) + occurrences_from(s@, m@, k + m@.len())
                    =~= before.map_values(|x: usize| x as int) + occurrences_from(s@, m@, from as int));
                from = k + m.len();
            },
            None => {
                assert(out@.map_values(|x: usize| x as int) =~= out@.map_values(|x: usize| x as int)
                    + occurrences_from(s@, m@, from as int));
                return out;
            },
        }
    }
}

} // verus!

verus! {

fn fallback_citation_exec(l: &LineCtx, sl: &[char], n: usize, ms: usize) -> (r: Option<
    model::Citation,
>)
    requires
        ms <= sl@.len(),
    ensures
        forall|g: &Grammar|
            match r {
                Some(ct) => fallback_citation(#[trigger] ctx_view(g, l), sl@, n as nat, ms as int)
                    == Some(ct@),
                None => fallback_citation(#[trigger] ctx_view(g, l), sl@, n as nat, ms as int) is None,
            },
{
    let len = sl.len();
    if l.marker.len() > len - ms {
        return None;
    }
    let ts = ms + l.marker.len();
    let rest = text::slice_range(sl, ts, len);
    let q = scan_run(&CharClass::AliasChar, rest.as_slice(), 0);
    if rest.len() > 0 && 'a' <= rest[0] && rest[0] <= 'z' && q < rest.len() && rest[q] == '/' {
        let id_start = ts + q + 1;
        let tail = text::slice_range(sl, id_start, len);
        match parse_loose_qualified_id_prefix(tail.as_slice()) {
            Some((id, sec, tlen)) => {
                proof {
                    lemma_loose_len(tail@);
                }
                let nsv = text::slice_range(rest.as_slice(), 0, q);
                let tv = text::slice_range(sl, ms, id_start + tlen);
                Some(
                    model::Citation {
                        namespace: Some(text::string_from_chars(nsv.as_slice())),
                        id,
                        section: sec,
                        file: model::copy_string(&l.path),
                        line: n,
                        column: text::byte_column_exec(sl, ms),
                        has_marker: true,
                        text: text::string_from_chars(tv.as_slice()),
                        inline_site: None,
                    },
                )
            },
            None => None,
        }
    } else {
        None
    }
}

proof fn lemma_loose_len(raw: Seq<char>)
    ensures
        loose_id_prefix(raw) matches Some((_, _, len)) ==> 0 <= len <= raw.len(),
{
    let end0 = grammar::run_end(CharClass::Loose, raw, 0);
    grammar::lemma_run_end(CharClass::Loose, raw, 0);
    lemma_trim_punct(raw, end0);
}

fn seen_qualified_exec(main: &Vec<model::Citation>, col: usize) -> (r: bool)
    ensures
        r == seen_qualified(model::citation_views(main@), col),
{
    let mut k: usize = 0;
    while k < main.len()
        invariant
            k <= main@.len(),
            forall|m: int| 0 <= m < k ==> !(model::citation_views(main@)[m].namespace is Some
                && model::citation_views(main@)[m].column == col),
        decreases main@.len() - k,
    {
        if main[k].namespace.is_some() && main[k].column == col {
            assert(model::citation_views(main@)[k as int].namespace is Some);
            return true;
        }
        k = k + 1;
    }
    false
}

fn fallback_citations_exec(
    g: &Grammar,
    l: &LineCtx,
    sl: &[char],
    n: usize,
    main: &Vec<model::Citation>,
    occ: &Vec<usize>,
) -> (r: Vec<model::Citation>)
    requires
        forall|k: int| 0 <= k < occ@.len() ==> #[trigger] occ@[k] <= sl@.len(),
    ensures
        model::citation_views(r@) == fallback_citations(
            ctx_view(g, l),
            sl@,
            n as nat,
            model::citation_views(main@),
            occ@.map_values(|x: usize| x as int),
        ),
{
    let ghost c = ctx_view(g, l);
    let ghost ov = occ@.map_values(|x: usize| x as int);
    let mut out: Vec<model::Citation> = Vec::new();
    let mut k: usize = 0;
    while k < occ.len()
        invariant
            k <= occ@.len(),
            c == ctx_view(g, l),
            ov == occ@.map_values(|x: usize| x as int),
            forall|m: int| 0 <= m < occ@.len() ==> #[trigger] occ@[m] <= sl@.len(),
            model::citation_views(out@) == fallback_citations(
                c,
                sl@,
                n as nat,
                model::citation_views(main@),
                ov.subrange(0, k as int),
            ),
        decreases occ@.len() - k,
    {
        let ms = occ[k];
        assert(ov.subrange(0, k + 1).drop_last() =~= ov.subrange(0, k as int));
        assert(ov.subrange(0, k + 1).last() == ms as int);
        let col = text::byte_column_exec(sl, ms);
        if !(seen_qualified_exec(main, col) || text::is_inside_inline_code(sl, ms) || (!l.is_md
            && text::is_inside_string_literal(sl, ms))) {
            match fallback_citation_exec(l, sl, n, ms) {
                Some(ct) => {
                    let ghost before = out@;
                    out.push(ct);
                    assert(model::citation_views(out@) =~= model::citation_views(before).push(ct@));
                },
                None => {},
            }
        }
        k = k + 1;
    }
    assert(ov.subrange(0, k as int) =~= ov);
    out
}

/// Every citation on a non-declaration line, as `line_citations` defines it.
pub fn line_citations_exec(
    g: &Grammar,
    l: &LineCtx,
    sl: &[char],
    n: usize,
    cur: &Option<model::Declaration>,
) -> (r: Vec<model::Citation>)
    requires
        g.wf(),
    ensures
        model::citation_views(r@) == line_citations(ctx_view(g, l), sl@, n as nat, opt_decl_view(*cur)),
{
    let toks = g.line_tokens(sl);
    let mut main = token_citations_exec(g, l, sl, n, cur, &toks);
    let occ = occurrences(sl, l.marker.as_slice());
    let mut more = if l.targets.len() == 0 {
        fallback_citations_exec(g, l, sl, n, &main, &occ)
    } else {
        workspace_citations_exec(g, l, sl, n, &occ)
    };
    let ghost mv = model::citation_views(main@);
    let ghost fv = model::citation_views(more@);
    main.append(&mut more);
    assert(model::citation_views(main@) =~= mv + fv);
    main
}

fn word_end_exec(s: &[char]) -> (r: usize)
    ensures
        r as int == word_end(s@, 0),
        r <= s@.len(),
{
    let mut i: usize = 0;
    while i < s.len() && !text::is_whitespace(s[i])
        invariant
            i <= s@.len(),
            word_end(s@, 0) == word_end(s@, i as int),
        decreases s@.len() - i,
    {
        i = i + 1;
    }
    i
}

/// The longest ID prefix of `raw`, as `longest_id_prefix` defines it.
pub fn longest_id_prefix_exec(g: &Grammar, raw: &[char]) -> (r: Option<(model::Id, Option<String>, usize)>)
    requires
        g.wf(),
    ensures
        match r {
            Some((id, sec, len)) => longest_id_prefix(g@, raw@) == Some((id@, model::opt_view(sec), len as int))
                && len <= raw@.len(),
            None => longest_id_prefix(g@, raw@) is None,
        },
{
    let mut e = word_end_exec(raw);
    while e > 0
        invariant
            g.wf(),
            e <= raw@.len(),
            longest_id_prefix(g@, raw@) == longest_parse_from(g@, raw@, e as int),
        decreases e,
    {
        let head = text::slice_range(raw, 0, e);
        match g.parse_id_arg(head.as_slice()) {
            Some((id, sec)) => {
                return Some((id, sec, e));
            },
            None => {},
        }
        e = e - 1;
    }
    None
}

fn target_parse_exec(targets: &Vec<WorkspaceTarget>, alias: &[char], raw: &[char]) -> (r: Option<(model::Id, Option<String>, usize)>)
    ensures
        match r {
            Some((id, sec, len)) => target_parse(target_views(targets@), alias@, raw@) == Some(
                (id@, model::opt_view(sec), len as int),
            ) && len <= raw@.len(),
            None => target_parse(target_views(targets@), alias@, raw@) is None,
        },
{
    let ghost tv = target_views(targets@);
    let mut k: usize = 0;
    while k < targets.len()
        invariant
            k <= targets@.len(),
            tv == target_views(targets@),
            target_index_from(tv, alias@, 0) == target_index_from(tv, alias@, k as int),
        decreases targets@.len() - k,
    {
        let t = &targets[k];
        let av = chars_of_string(&t.alias);
        if crate::order::chars_equal(av.as_slice(), alias) {
            proof {
                use_type_invariant(t);
            }
            return longest_id_prefix_exec(&t.grammar, raw);
        }
        k = k + 1;
    }
    let mut k: usize = 0;
    while k < targets.len()
        invariant
            k <= targets@.len(),
            tv == target_views(targets@),
            target_index_from(tv, alias@, 0) is None,
            first_parse_from(tv, raw@, 0) == first_parse_from(tv, raw@, k as int),
        decreases targets@.len() - k,
    {
        let t = &targets[k];
        proof {
            use_type_invariant(t);
        }
        match longest_id_prefix_exec(&t.grammar, raw) {
            Some(p) => {
                return Some(p);
            },
            None => {},
        }
        k = k + 1;
    }
    None
}

fn chars_of_string(s: &String) -> (r: Vec<char>)
    ensures
        r@ == s@,
{
    text::chars_of(s.as_str())
}

fn workspace_citation_exec(l: &LineCtx, sl: &[char], n: usize, ms: usize) -> (r: Option<model::Citation>)
    requires
        ms <= sl@.len(),
    ensures
        forall|g: &Grammar|
            match r {
                Some(ct) => workspace_citation(#[trigger] ctx_view(g, l), sl@, n as nat, ms as int) == Some(ct@),
                None => workspace_citation(#[trigger] ctx_view(g, l), sl@, n as nat, ms as int) is None,
            },
{
    let len = sl.len();
    if l.marker.len() > len - ms {
        return None;
    }
    let ts = ms + l.marker.len();
    let rest = text::slice_range(sl, ts, len);
    let q = scan_run(&CharClass::AliasChar, rest.as_slice(), 0);
    if rest.len() > 0 && 'a' <= rest[0] && rest[0] <= 'z' && q < rest.len() && rest[q] == '/' {
        let id_start = ts + q + 1;
        let tail = text::slice_range(sl, id_start, len);
        let nsv = text::slice_range(rest.as_slice(), 0, q);
        match target_parse_exec(l.targets, nsv.as_slice(), tail.as_slice()) {
            Some((id, sec, tlen)) => {
                let tv = text::slice_range(sl, ms, id_start + tlen);
                Some(
                    model::Citation {
                        namespace: Some(text::string_from_chars(nsv.as_slice())),
                        id,
                        section: sec,
                        file: model::copy_string(&l.path),
                        line: n,
                        column: text::byte_column_exec(sl, ms),
                        has_marker: true,
                        text: text::string_from_chars(tv.as_slice()),
                        inline_site: None,
                    },
                )
            },
            None => None,
        }
    } else {
        None
    }
}

fn workspace_citations_exec(g: &Grammar, l: &LineCtx, sl: &[char], n: usize, occ: &Vec<usize>) -> (r: Vec<model::Citation>)
    requires
        forall|k: int| 0 <= k < occ@.len() ==> #[trigger] occ@[k] <= sl@.len(),
    ensures
        model::citation_views(r@) == workspace_citations(ctx_view(g, l), sl@, n as nat, occ@.map_values(|x: usize| x as int)),
{
    let ghost c = ctx_view(g, l);
    let ghost ov = occ@.map_values(|x: usize| x as int);
    let mut out: Vec<model::Citation> = Vec::new();
    let mut k: usize = 0;
    while k < occ.len()
        invariant
            k <= occ@.len(),
            c == ctx_view(g, l),
            ov == occ@.map_values(|x: usize| x as int),
            forall|m: int| 0 <= m < occ@.len() ==> #[trigger] occ@[m] <= sl@.len(),
            model::citation_views(out@) == workspace_citations(c, sl@, n as nat, ov.subrange(0, k as int)),
        decreases occ@.len() - k,
    {
        let ms = occ[k];
        assert(ov.subrange(0, k + 1).drop_last() =~= ov.subrange(0, k as int));
        assert(ov.subrange(0, k + 1).last() == ms as int);
        if !(text::is_inside_inline_code(sl, ms) || (!l.is_md && text::is_inside_string_literal(sl, ms))) {
            match workspace_citation_exec(l, sl, n, ms) {
                Some(ct) => {
                    let ghost before = out@;
                    out.push(ct);
                    assert(model::citation_views(out@) =~= model::citation_views(before).push(ct@));
                },
                None => {},
            }
        }
        k = k + 1;
    }
    assert(ov.subrange(0, k as int) =~= ov);
    out
}

} // verus!

verus! {

/// The executable scan state.
pub struct ScanStateExec {
    pub in_fence: bool,
    pub in_doc: bool,
    pub current: Option<model::Declaration>,
    pub decls: Vec<model::Declaration>,
    pub cits: Vec<model::Citation>,
}

pub open spec fn state_view(s: ScanStateExec) -> ScanState {
    ScanState {
        in_fence: s.in_fence,
        in_doc: s.in_doc,
        current: opt_decl_view(s.current),
        decls: model::decl_views(s.decls@),
        cits: model::citation_views(s.cits@),
    }
}

/// Inserts (or replaces) a section of a declaration, keyed by its path.
fn insert_section_exec(d: &mut model::Declaration, key: Vec<char>, info: model::SectionInfo)
    ensures
        final(d)@ == (model::DeclarationV {
            sections: insert_section(
                old(d)@.sections,
                (key@, info.title@, info.line, info.heading_level),
            ),
            ..old(d)@
        }),
{
    let ghost e = (key@, info.title@, info.line, info.heading_level);
    let ghost secs = old(d)@.sections;
    let ghost d0 = d@;
    let mut j: usize = 0;
    while j < d.sections.len()
        invariant
            j <= d.sections@.len(),
            d@ == d0,
            d0 == old(d)@,
            secs == d0.sections,
            e == (key@, info.title@, info.line, info.heading_level),
            model::section_views(d.sections@) == secs,
            section_index(secs, key@, 0) == section_index(secs, key@, j as int),
        decreases d.sections@.len() - j,
    {
        let kv = text::chars_of(d.sections[j].0.as_str());
        assert(secs[j as int].0 == kv@);
        if kv.len() == key.len() && text::matches_at(kv.as_slice(), 0, key.as_slice()) {
            assert(kv@.subrange(0, key@.len() as int) =~= kv@);
            let ks = text::string_from_chars(key.as_slice());
            d.sections.set(j, (ks, info));
            assert(model::section_views(d.sections@) =~= secs.update(j as int, e));
            return;
        }
        assert(secs[j as int].0 != key@) by {
            if secs[j as int].0 == key@ {
                assert(kv@.subrange(0, key@.len() as int) =~= kv@);
            }
        }
        j = j + 1;
    }
    let ks = text::string_from_chars(key.as_slice());
    d.sections.push((ks, info));
    assert(model::section_views(d.sections@) =~= secs.push(e));
}

/// One line of the scan, as `scan_step` defines it.
pub fn scan_step_exec(g: &Grammar, l: &LineCtx, st: &mut ScanStateExec, line: &[char], n: usize)
    requires
        g.wf(),
    ensures
        state_view(*final(st)) == scan_step(ctx_view(g, l), state_view(*old(st)), line@, n as nat),
{
    let fa = vec!['`', '`', '`'];
    let fb = vec!['~', '~', '~'];
    let da = vec!['"', '"', '"'];
    let db = vec!['\'', '\'', '\''];
    assert(fa@ =~= fence_a());
    assert(fb@ =~= fence_b());
    assert(da@ =~= doc_a());
    assert(db@ =~= doc_b());
    let trimmed = trim_start_chars(line);
    if l.is_md && (text::matches_at(trimmed.as_slice(), 0, fa.as_slice()) || text::matches_at(
        trimmed.as_slice(),
        0,
        fb.as_slice(),
    )) {
        st.in_fence = !st.in_fence;
        return;
    }
    if st.in_fence {
        return;
    }
    if l.docstring_python && l.is_py && (text::matches_at(trimmed.as_slice(), 0, da.as_slice())
        || text::matches_at(trimmed.as_slice(), 0, db.as_slice())) {
        st.in_doc = !st.in_doc;
        return;
    }
    let sl: Vec<char> = if st.in_doc {
        trimmed
    } else {
        text::slice_range(line, 0, line.len())
    };
    proof {
        assert(line@.subrange(0, line@.len() as int) =~= line@);
    }
    let md_mode = l.is_md || st.in_doc;
    match g.declaration_at(sl.as_slice(), &l.prefixes, md_mode) {
        Some(hit) => {
            let tail = text::slice_range(sl.as_slice(), hit.id_end, sl.len());
            let stub = if l.is_md && l.in_docs {
                grammar::stub_link_path(tail.as_slice())
            } else {
                None
            };
            let title = if stub.is_some() {
                None
            } else {
                match grammar::declaration_title(tail.as_slice()) {
                    Some(t) => Some(text::string_from_chars(t.as_slice())),
                    None => None,
                }
            };
            let is_stub = stub.is_some();
            let defined_in = match stub {
                Some(p) => Some(text::string_from_chars(p.as_slice())),
                None => None,
            };
            let d = model::Declaration {
                id: hit.id,
                file: model::copy_string(&l.path),
                line: n,
                heading_level: hit.level,
                sections: Vec::new(),
                is_stub,
                defined_in,
                e2e_case: None,
                title,
            };
            assert(model::section_views(d.sections@) =~= Seq::empty());
            let prev = st.current.take();
            match prev {
                Some(p) => {
                    let ghost before = st.decls@;
                    st.decls.push(p);
                    assert(model::decl_views(st.decls@) =~= model::decl_views(before).push(p@));
                },
                None => {},
            }
            st.current = Some(d);
        },
        None => {
            match g.section_heading_at(sl.as_slice(), &l.prefixes, md_mode) {
                Some((sec, lvl)) => {
                    let is_deeper = match &st.current {
                        Some(d) => lvl > d.heading_level,
                        None => false,
                    };
                    if is_deeper {
                        let title_v = section_anchor_text_of(sl.as_slice(), sec.as_slice());
                        let info = model::SectionInfo {
                            title: text::string_from_chars(title_v.as_slice()),
                            line: n,
                            heading_level: lvl,
                        };
                        let mut d = st.current.take().unwrap();
                        insert_section_exec(&mut d, sec, info);
                        st.current = Some(d);
                    }
                },
                None => {},
            }
            let mut found = line_citations_exec(g, l, sl.as_slice(), n, &st.current);
            let ghost before = st.cits@;
            let ghost fv = model::citation_views(found@);
            st.cits.append(&mut found);
            assert(model::citation_views(st.cits@) =~= model::citation_views(before) + fv);
        },
    }
}

} // verus!

verus! {

pub open spec fn md_ext() -> Seq<char> {
    seq!['m', 'd']
}

pub open spec fn py_ext() -> Seq<char> {
    seq!['p', 'y']
}

pub open spec fn docs_dir() -> Seq<char> {
    seq!['d', 'o', 'c', 's']
}

/// The scan context of one file under a configuration.
pub open spec fn file_ctx(g: grammar::GrammarV, c: Config, path: Seq<char>) -> ScanCtx {
    file_ctx_in(g, c, Seq::empty(), path)
}

/// The context of one file in a scan whose workspace targets are `tg`.
pub open spec fn file_ctx_in(g: grammar::GrammarV, c: Config, tg: Seq<(Seq<char>, grammar::GrammarV)>, path: Seq<char>) -> ScanCtx {
    ScanCtx {
        targets: tg,
        g,
        prefixes: model::str_views(c.comment_prefixes@),
        marker: c.marker@,
        strict: c.strict,
        docstring_python: c.docstring_python,
        is_md: extension(path) == Some(md_ext()),
        is_py: extension(path) == Some(py_ext()),
        in_docs: has_component(path, docs_dir()),
        path,
    }
}

/// What one file declares and cites.
pub struct FileScan {
    pub declarations: Vec<model::Declaration>,
    pub citations: Vec<model::Citation>,
}

/// Every string of a list, as characters.
pub fn chars_list(v: &Vec<String>) -> (r: Vec<Vec<char>>)
    ensures
        text::views(r@) == model::str_views(v@),
{
    let mut out: Vec<Vec<char>> = Vec::new();
    let mut i: usize = 0;
    while i < v.len()
        invariant
            i <= v@.len(),
            text::views(out@) =~= model::str_views(v@).subrange(0, i as int),
        decreases v@.len() - i,
    {
        let c = text::chars_of(v[i].as_str());
        let ghost before = out@;
        out.push(c);
        assert(text::views(out@) =~= text::views(before).push(v@[i as int]@));
        i = i + 1;
    }
    out
}

/// Scans one file's text line by line: declaration headings (Markdown or in
/// comments), nested numbered sections, and citations, skipping fenced code.
pub fn scan_text_of(path: &str, content: &str, config: &Config, g: &Grammar) -> (r: FileScan)
    requires
        g.wf(),
    ensures
        (model::decl_views(r.declarations@), model::citation_views(r.citations@)) == scan_text(
            file_ctx(g@, *config, path@),
            content@,
        ),
        forall|k: int|
            0 <= k < r.citations@.len() ==> #[trigger] r.citations@[k].inline_site == comment_blocks::site_at(
                comment_blocks::inline_sites(file_ctx(g@, *config, path@), content@),
                r.citations@[k].line,
            ),
{
    let none: Vec<WorkspaceTarget> = Vec::new();
    assert(target_views(none@) =~= Seq::empty());
    scan_text_in(path, content, config, g, &none)
}

/// Scans one file's text in a scan whose workspace targets are `targets`.
pub fn scan_text_in(path: &str, content: &str, config: &Config, g: &Grammar, targets: &Vec<WorkspaceTarget>) -> (r: FileScan)
    requires
        g.wf(),
    ensures
        (model::decl_views(r.declarations@), model::citation_views(r.citations@)) == scan_text(
            file_ctx_in(g@, *config, target_views(targets@), path@),
            content@,
        ),
        forall|k: int|
            0 <= k < r.citations@.len() ==> #[trigger] r.citations@[k].inline_site == comment_blocks::site_at(
                comment_blocks::inline_sites(file_ctx_in(g@, *config, target_views(targets@), path@), content@),
                r.citations@[k].line,
            ),
{
    let pv = text::chars_of(path);
    let md = vec!['m', 'd'];
    let py = vec!['p', 'y'];
    let docs = vec!['d', 'o', 'c', 's'];
    assert(md@ =~= md_ext());
    assert(py@ =~= py_ext());
    assert(docs@ =~= docs_dir());
    let l = LineCtx {
        targets,
        prefixes: chars_list(&config.comment_prefixes),
        marker: text::chars_of(config.marker.as_str()),
        strict: config.strict,
        docstring_python: config.docstring_python,
        is_md: has_extension(pv.as_slice(), md.as_slice()),
        is_py: has_extension(pv.as_slice(), py.as_slice()),
        in_docs: path_has_component(pv.as_slice(), docs.as_slice()),
        path: text::string_from_chars(pv.as_slice()),
    };
    let ghost c = file_ctx_in(g@, *config, target_views(targets@), path@);
    assert(ctx_view(g, &l) == c);
    let tv = text::chars_of(content);
    let lines = text::split_lines(tv.as_slice());
    let ghost ls = text::spec_lines(content@);
    let mut st = ScanStateExec {
        in_fence: false,
        in_doc: false,
        current: None,
        decls: Vec::new(),
        cits: Vec::new(),
    };
    assert(model::decl_views(st.decls@) =~= Seq::empty());
    assert(model::citation_views(st.cits@) =~= Seq::empty());
    assert(state_view(st) == initial_state());
    let mut k: usize = 0;
    while k < lines.len()
        invariant
            k <= lines@.len(),
            g.wf(),
            c == ctx_view(g, &l),
            ls == text::spec_lines(content@),
            text::views(lines@) == ls,
            state_view(st) == scan_upto(c, ls, k as int),
        decreases lines@.len() - k,
    {
        assert(ls[k as int] == lines@[k as int]@);
        scan_step_exec(g, &l, &mut st, lines[k].as_slice(), k + 1);
        k = k + 1;
    }
    let mut decls = st.decls;
    match st.current {
        Some(d) => {
            let ghost before = decls@;
            decls.push(d);
            assert(model::decl_views(decls@) =~= model::decl_views(before).push(d@));
        },
        None => {},
    }
    let sites = comment_blocks::inline_sites_exec(g, &l, &lines);
    let ghost sv = comment_blocks::inline_sites(c, content@);
    assert(sites@ == sv);
    let mut cits: Vec<model::Citation> = Vec::new();
    let mut k: usize = 0;
    while k < st.cits.len()
        invariant
            k <= st.cits@.len(),
            sites@ == sv,
            model::citation_views(cits@) =~= model::citation_views(st.cits@).subrange(0, k as int),
            forall|j: int| 0 <= j < k ==> #[trigger] cits@[j].inline_site == comment_blocks::site_at(sv, cits@[j].line),
        decreases st.cits@.len() - k,
    {
        let n = st.cits[k].line;
        let site = if 1 <= n && n <= sites.len() {
            sites[n - 1]
        } else {
            None
        };
        let ghost before = cits@;
        cits.push(with_site(&st.cits[k], site));
        assert(model::citation_views(cits@) =~= model::citation_views(before).push(st.cits@[k as int]@));
        k = k + 1;
    }
    assert(model::citation_views(st.cits@).subrange(0, st.cits@.len() as int) =~= model::citation_views(st.cits@));
    FileScan { declarations: decls, citations: cits }
}

/// A copy of a citation that sits in comment-block site `site`.
fn with_site(c: &model::Citation, site: Option<model::InlineCitationSite>) -> (r: model::Citation)
    ensures
        r@ == c@,
        r.inline_site == site,
{
    model::Citation {
        namespace: model::copy_opt_string(&c.namespace),
        id: c.id.copy(),
        section: model::copy_opt_string(&c.section),
        file: model::copy_string(&c.file),
        line: c.line,
        column: c.column,
        has_marker: c.has_marker,
        text: model::copy_string(&c.text),
        inline_site: site,
    }
}

} // verus!
