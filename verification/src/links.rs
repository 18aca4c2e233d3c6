//! Markdown links for citations (`fmt --cross-refs`): where a citation's link
//! points (a relative path to the declaration's home, plus a heading anchor), the
//! heading slug of each anchor profile, and the rewrite that wraps `§<ID>` as
//! `[§<ID>](url)`.
use vstd::prelude::*;
use unicode_normalization::UnicodeNormalization;
use crate::checker::{self, display_path, group_index, groups_view};
use crate::grammar::{self, Grammar};
use crate::model::{self, Config, Declaration, Findings, Id};
use crate::scanner;
use crate::text::{self, chars_of, string_from_chars};
use crate::tree::SourceFile;

verus! {

// ---------------------------------------------------------------- character classes

/// What `char::to_lowercase` yields for `c`.
pub uninterp spec fn lowercase_of(c: char) -> Seq<char>;

/// Whether `char::is_alphanumeric` holds of `c`.
pub uninterp spec fn alphanumeric(c: char) -> bool;

/// What `UnicodeNormalization::nfkd` yields for a string.
pub uninterp spec fn nfkd(s: Seq<char>) -> Seq<char>;

pub open spec fn ascii_lower(c: char) -> char {
    if 'A' <= c && c <= 'Z' {
        ((c as u32) + 32) as char
    } else {
        c
    }
}

/// `char::to_lowercase`, collected. Claims: a function of `c`; an ASCII character
/// maps to its ASCII lowercase (std documents the mapping as Unicode's; ASCII
/// letters map to their lowercase, other ASCII characters to themselves).
#[verifier::external_body]
pub(crate) fn lowercase_chars(c: char) -> (r: Vec<char>)
    ensures
        r@ == lowercase_of(c),
        c <= '\x7f' ==> r@ == seq![ascii_lower(c)],
{
    c.to_lowercase().collect()
}

/// `char::is_alphanumeric`. Claims: a function of `c`; on ASCII it is exactly
/// the letters and digits (std: alphabetic or numeric).
#[verifier::external_body]
pub(crate) fn is_alphanumeric(c: char) -> (r: bool)
    ensures
        r == alphanumeric(c),
        c <= '\x7f' ==> r == grammar::is_alnum(c),
{
    c.is_alphanumeric()
}

/// An ASCII string: every character below `\x80`.
pub open spec fn all_ascii(s: Seq<char>) -> bool {
    forall|i: int| 0 <= i < s.len() ==> s[i] <= '\x7f'
}

/// `unicode_normalization::UnicodeNormalization::nfkd` on a string, collected.
/// Claims: the result is a function of the string, and an ASCII string is left as
/// it is (no ASCII character has a compatibility decomposition in Unicode).
#[verifier::external_body]
pub(crate) fn nfkd_chars(s: &str) -> (r: Vec<char>)
    ensures
        r@ == nfkd(s@),
        all_ascii(s@) ==> r@ == s@,
{
    s.nfkd().collect()
}

// ---------------------------------------------------------------- anchor slugs

/// `char::to_lowercase` of `c`: on ASCII its ASCII lowercase, as std documents.
pub open spec fn lower_of(c: char) -> Seq<char> {
    if c <= '\x7f' {
        seq![ascii_lower(c)]
    } else {
        lowercase_of(c)
    }
}

/// `char::is_alphanumeric` of `c`: on ASCII exactly the letters and digits.
pub open spec fn alnum_of(c: char) -> bool {
    if c <= '\x7f' {
        grammar::is_alnum(c)
    } else {
        alphanumeric(c)
    }
}

/// GitHub's slugger, over the lowercased characters: keep letters, digits, `_` and
/// `-`, turn each space into `-`, drop everything else.
pub open spec fn github_keep(lowered: Seq<char>) -> Seq<char>
    decreases lowered.len(),
{
    if lowered.len() == 0 {
        Seq::empty()
    } else {
        let prev = github_keep(lowered.drop_last());
        let ch = lowered.last();
        if alnum_of(ch) || ch == '_' || ch == '-' {
            prev.push(ch)
        } else if ch == ' ' {
            prev.push('-')
        } else {
            prev
        }
    }
}

/// Every character of `s` lowercased (`flat_map(char::to_lowercase)`).
pub open spec fn lowered(s: Seq<char>) -> Seq<char>
    decreases s.len(),
{
    if s.len() == 0 {
        Seq::empty()
    } else {
        lowered(s.drop_last()) + lower_of(s.last())
    }
}

pub open spec fn anchor_slug_github(s: Seq<char>) -> Seq<char> {
    github_keep(lowered(s))
}

fn lowered_exec(s: &[char]) -> (r: Vec<char>)
    ensures
        r@ == lowered(s@),
{
    let mut out: Vec<char> = Vec::new();
    let mut i: usize = 0;
    while i < s.len()
        invariant
            i <= s@.len(),
            out@ == lowered(s@.subrange(0, i as int)),
        decreases s@.len() - i,
    {
        let l = lowercase_chars(s[i]);
        text::push_all(&mut out, l.as_slice());
        proof {
            let p = s@.subrange(0, i + 1);
            assert(p.drop_last() =~= s@.subrange(0, i as int));
        }
        i = i + 1;
    }
    assert(s@.subrange(0, s@.len() as int) =~= s@);
    out
}

pub fn anchor_slug_github_exec(s: &[char]) -> (r: Vec<char>)
    ensures
        r@ == anchor_slug_github(s@),
{
    let low = lowered_exec(s);
    let mut out: Vec<char> = Vec::new();
    let mut i: usize = 0;
    while i < low.len()
        invariant
            i <= low@.len(),
            out@ == github_keep(low@.subrange(0, i as int)),
        decreases low@.len() - i,
    {
        let ch = low[i];
        if is_alphanumeric(ch) || ch == '_' || ch == '-' {
            out.push(ch);
        } else if ch == ' ' {
            out.push('-');
        }
        proof {
            let p = low@.subrange(0, i + 1);
            assert(p.drop_last() =~= low@.subrange(0, i as int));
        }
        i = i + 1;
    }
    assert(low@.subrange(0, low@.len() as int) =~= low@);
    out
}

pub open spec fn is_ascii_ws(c: char) -> bool {
    c == ' ' || c == '\t' || c == '\n' || c == '\x0C' || c == '\r'
}

pub open spec fn is_ascii_alnum(c: char) -> bool {
    grammar::is_alnum(c)
}

/// Python-Markdown's slugger over the normalized characters: keep ASCII letters,
/// digits and `_` (lowercased), turn each run of whitespace and `-` after some
/// kept text into one `-`; returns the text and whether it ends in that `-`.
pub open spec fn mkdocs_fold(cs: Seq<char>) -> (Seq<char>, bool)
    decreases cs.len(),
{
    if cs.len() == 0 {
        (Seq::empty(), false)
    } else {
        let (out, last_dash) = mkdocs_fold(cs.drop_last());
        let lower = ascii_lower(cs.last());
        if is_ascii_alnum(lower) || lower == '_' {
            (out.push(lower), false)
        } else if (is_ascii_ws(lower) || lower == '-') && !last_dash && out.len() > 0 {
            (out.push('-'), true)
        } else {
            (out, last_dash)
        }
    }
}

/// Pandoc's slugger: like Python-Markdown's but `-` and `.` are kept as written,
/// and only whitespace runs become `-`.
pub open spec fn pandoc_fold(cs: Seq<char>) -> (Seq<char>, bool)
    decreases cs.len(),
{
    if cs.len() == 0 {
        (Seq::empty(), false)
    } else {
        let (out, last_dash) = pandoc_fold(cs.drop_last());
        let lower = ascii_lower(cs.last());
        if is_ascii_alnum(lower) || lower == '_' || lower == '-' || lower == '.' {
            (out.push(lower), lower == '-')
        } else if is_ascii_ws(lower) && !last_dash && out.len() > 0 {
            (out.push('-'), true)
        } else {
            (out, last_dash)
        }
    }
}

/// `s` without trailing `-`.
pub open spec fn trim_trailing_dashes(s: Seq<char>) -> Seq<char>
    decreases s.len(),
{
    if s.len() > 0 && s.last() == '-' {
        trim_trailing_dashes(s.drop_last())
    } else {
        s
    }
}

/// NFKD of `s`: an ASCII string is its own decomposition.
pub open spec fn decomposed(s: Seq<char>) -> Seq<char> {
    if all_ascii(s) {
        s
    } else {
        nfkd(s)
    }
}

pub open spec fn anchor_slug_mkdocs(s: Seq<char>) -> Seq<char> {
    trim_trailing_dashes(mkdocs_fold(decomposed(s)).0)
}

pub open spec fn anchor_slug_pandoc(s: Seq<char>) -> Seq<char> {
    trim_trailing_dashes(pandoc_fold(decomposed(s)).0)
}

pub(crate) fn ascii_lower_exec(c: char) -> (r: char)
    ensures
        r == ascii_lower(c),
{
    if 'A' <= c && c <= 'Z' {
        let b = (c as u32) as u8;
        ((b + 32) as char)
    } else {
        c
    }
}

fn is_ascii_ws_exec(c: char) -> (r: bool)
    ensures
        r == is_ascii_ws(c),
{
    c == ' ' || c == '\t' || c == '\n' || c == '\x0C' || c == '\r'
}

pub(crate) fn is_ascii_alnum_exec(c: char) -> (r: bool)
    ensures
        r == is_ascii_alnum(c),
{
    ('0' <= c && c <= '9') || ('A' <= c && c <= 'Z') || ('a' <= c && c <= 'z')
}

fn trim_trailing_dashes_exec(v: Vec<char>) -> (r: Vec<char>)
    ensures
        r@ == trim_trailing_dashes(v@),
{
    let ghost v0 = v@;
    let mut v = v;
    while v.len() > 0 && v[v.len() - 1] == '-'
        invariant
            trim_trailing_dashes(v@) == trim_trailing_dashes(v0),
        decreases v@.len(),
    {
        let ghost before = v@;
        v.pop();
        assert(v@ =~= before.drop_last());
    }
    v
}

/// The slug of `s` under the mkdocs (`pandoc == false`) or pandoc profile.
pub fn anchor_slug_folded(s: &str, pandoc: bool) -> (r: Vec<char>)
    ensures
        r@ == if pandoc {
            anchor_slug_pandoc(s@)
        } else {
            anchor_slug_mkdocs(s@)
        },
{
    let cs = nfkd_chars(s);
    let mut out: Vec<char> = Vec::new();
    let mut last_dash = false;
    let mut i: usize = 0;
    while i < cs.len()
        invariant
            i <= cs@.len(),
            cs@ == decomposed(s@),
            (out@, last_dash) == if pandoc {
                pandoc_fold(cs@.subrange(0, i as int))
            } else {
                mkdocs_fold(cs@.subrange(0, i as int))
            },
        decreases cs@.len() - i,
    {
        let lower = ascii_lower_exec(cs[i]);
        if pandoc {
            if is_ascii_alnum_exec(lower) || lower == '_' || lower == '-' || lower == '.' {
                out.push(lower);
                last_dash = lower == '-';
            } else if is_ascii_ws_exec(lower) && !last_dash && out.len() > 0 {
                out.push('-');
                last_dash = true;
            }
        } else {
            if is_ascii_alnum_exec(lower) || lower == '_' {
                out.push(lower);
                last_dash = false;
            } else if (is_ascii_ws_exec(lower) || lower == '-') && !last_dash && out.len() > 0 {
                out.push('-');
                last_dash = true;
            }
        }
        proof {
            let p = cs@.subrange(0, i + 1);
            assert(p.drop_last() =~= cs@.subrange(0, i as int));
        }
        i = i + 1;
    }
    assert(cs@.subrange(0, cs@.len() as int) =~= cs@);
    trim_trailing_dashes_exec(out)
}

/// The anchor slug of a heading under a profile (`pandoc`, `mkdocs`, `gitlab`;
/// anything else is `github`); `gitlab` uses GitHub's slugger.
/// A heading already in GitHub's slug shape: lowercase ASCII letters, digits and `-`.
pub open spec fn slug_shaped(s: Seq<char>) -> bool {
    forall|i: int| 0 <= i < s.len() ==> (grammar::is_lower(#[trigger] s[i]) || grammar::is_digit(s[i]) || s[i] == '-')
}

proof fn lemma_lowered_slug_shaped(s: Seq<char>)
    requires
        slug_shaped(s),
    ensures
        lowered(s) == s,
    decreases s.len(),
{
    if s.len() > 0 {
        assert(slug_shaped(s.drop_last())) by {
            assert forall|i: int| 0 <= i < s.drop_last().len() implies (grammar::is_lower(#[trigger] s.drop_last()[i])
                || grammar::is_digit(s.drop_last()[i]) || s.drop_last()[i] == '-') by {
                assert(s.drop_last()[i] == s[i]);
            }
        }
        lemma_lowered_slug_shaped(s.drop_last());
        let c = s.last();
        assert(grammar::is_lower(s[s.len() - 1]) || grammar::is_digit(s[s.len() - 1]) || s[s.len() - 1] == '-');
        assert(lower_of(c) == seq![c]);
        assert(s.drop_last() + seq![c] =~= s);
    }
}

proof fn lemma_github_keep_slug_shaped(s: Seq<char>)
    requires
        slug_shaped(s),
    ensures
        github_keep(s) == s,
    decreases s.len(),
{
    if s.len() > 0 {
        assert(slug_shaped(s.drop_last())) by {
            assert forall|i: int| 0 <= i < s.drop_last().len() implies (grammar::is_lower(#[trigger] s.drop_last()[i])
                || grammar::is_digit(s.drop_last()[i]) || s.drop_last()[i] == '-') by {
                assert(s.drop_last()[i] == s[i]);
            }
        }
        lemma_github_keep_slug_shaped(s.drop_last());
        assert(grammar::is_lower(s[s.len() - 1]) || grammar::is_digit(s[s.len() - 1]) || s[s.len() - 1] == '-');
        assert(s.drop_last().push(s.last()) =~= s);
    }
}

/// A heading of ASCII letters, digits, `_`, `-` and spaces.
pub open spec fn plain_heading(s: Seq<char>) -> bool {
    forall|i: int|
        0 <= i < s.len() ==> (grammar::is_alnum(#[trigger] s[i]) || s[i] == '_' || s[i] == '-' || s[i] == ' ')
}

/// GitHub's slug of such a heading, character by character: letters lowercased,
/// each space a `-`, everything else kept.
pub open spec fn plain_slug(s: Seq<char>) -> Seq<char> {
    Seq::new(s.len(), |i: int| if s[i] == ' ' { '-' } else { ascii_lower(s[i]) })
}

proof fn lemma_plain_prefix(s: Seq<char>)
    requires
        plain_heading(s),
        s.len() > 0,
    ensures
        plain_heading(s.drop_last()),
        plain_slug(s.drop_last()).push(if s.last() == ' ' { '-' } else { ascii_lower(s.last()) }) == plain_slug(s),
{
    assert forall|i: int| 0 <= i < s.drop_last().len() implies (grammar::is_alnum(#[trigger] s.drop_last()[i])
        || s.drop_last()[i] == '_' || s.drop_last()[i] == '-' || s.drop_last()[i] == ' ') by {
        assert(s.drop_last()[i] == s[i]);
    }
    assert(plain_slug(s.drop_last()).push(if s.last() == ' ' { '-' } else { ascii_lower(s.last()) }) =~= plain_slug(s));
}

proof fn lemma_lowered_plain(s: Seq<char>)
    requires
        plain_heading(s),
    ensures
        lowered(s) == Seq::new(s.len(), |i: int| ascii_lower(s[i])),
    decreases s.len(),
{
    if s.len() > 0 {
        lemma_plain_prefix(s);
        lemma_lowered_plain(s.drop_last());
        assert(grammar::is_alnum(s[s.len() - 1]) || s[s.len() - 1] == '_' || s[s.len() - 1] == '-' || s[s.len() - 1] == ' ');
        assert(lower_of(s.last()) == seq![ascii_lower(s.last())]);
        assert(Seq::new(s.drop_last().len(), |i: int| ascii_lower(s.drop_last()[i])) + seq![ascii_lower(s.last())]
            =~= Seq::new(s.len(), |i: int| ascii_lower(s[i])));
    }
}

proof fn lemma_keep_lowered_plain(s: Seq<char>)
    requires
        plain_heading(s),
    ensures
        github_keep(Seq::new(s.len(), |i: int| ascii_lower(s[i]))) == plain_slug(s),
    decreases s.len(),
{
    if s.len() > 0 {
        lemma_plain_prefix(s);
        lemma_keep_lowered_plain(s.drop_last());
        let l = Seq::new(s.len(), |i: int| ascii_lower(s[i]));
        assert(l.drop_last() =~= Seq::new(s.drop_last().len(), |i: int| ascii_lower(s.drop_last()[i])));
        assert(grammar::is_alnum(s[s.len() - 1]) || s[s.len() - 1] == '_' || s[s.len() - 1] == '-' || s[s.len() - 1] == ' ');
        let c = l.last();
        assert(c == ascii_lower(s.last()));
        if grammar::is_upper(s.last()) {
            assert(grammar::is_lower(c)) by {
                assert(('a' as u32) <= (c as u32) <= ('z' as u32));
            }
        }
    }
}

/// GitHub's slug of a heading made of ASCII letters, digits, `_`, `-` and spaces
/// is that heading lowercased with each space turned into `-`: every letter, digit,
/// `_` and `-` is kept, in order (`Sign-up Flow` slugs to `sign-up-flow`).
pub proof fn lemma_github_slug_plain(s: Seq<char>)
    requires
        plain_heading(s),
    ensures
        anchor_slug_github(s) == plain_slug(s),
{
    lemma_lowered_plain(s);
    lemma_keep_lowered_plain(s);
}

/// GitHub's slug keeps every `-`, letter and digit of a lowercased heading: a
/// heading made only of lowercase ASCII letters, digits and `-` is its own anchor
/// (`Sign-up Flow` lowercases to `sign-up flow` and slugs to `sign-up-flow`).
pub proof fn lemma_github_slug_keeps_shape(s: Seq<char>)
    requires
        slug_shaped(s),
    ensures
        anchor_slug_github(s) == s,
        anchor_slug(s, "github"@) == s,
        anchor_slug(s, "gitlab"@) == s,
{
    lemma_lowered_slug_shaped(s);
    lemma_github_keep_slug_shaped(s);
    reveal_strlit("github");
    reveal_strlit("gitlab");
    reveal_strlit("pandoc");
    reveal_strlit("mkdocs");
    assert("github"@[0] != "pandoc"@[0] && "github"@[0] != "mkdocs"@[0]);
    assert("gitlab"@[0] != "pandoc"@[0] && "gitlab"@[0] != "mkdocs"@[0]);
}

pub open spec fn anchor_slug(s: Seq<char>, profile: Seq<char>) -> Seq<char> {
    if profile == "pandoc"@ {
        anchor_slug_pandoc(s)
    } else if profile == "mkdocs"@ {
        anchor_slug_mkdocs(s)
    } else {
        anchor_slug_github(s)
    }
}

pub fn anchor_slug_exec(s: &str, profile: &str) -> (r: Vec<char>)
    ensures
        r@ == anchor_slug(s@, profile@),
{
    let p = String::from_str(profile);
    if p.eq(&String::from_str("pandoc")) {
        anchor_slug_folded(s, true)
    } else if p.eq(&String::from_str("mkdocs")) {
        anchor_slug_folded(s, false)
    } else {
        let cs = chars_of(s);
        anchor_slug_github_exec(cs.as_slice())
    }
}

// ---------------------------------------------------------------- relative paths

/// The components of a path kept by a link: split on `/`, without empty, `.` and
/// `..` parts.
pub open spec fn keep_component(c: Seq<char>) -> bool {
    c.len() > 0 && c != seq!['.'] && c != seq!['.', '.']
}

pub open spec fn components_from(p: Seq<char>, i: int) -> Seq<Seq<char>>
    decreases p.len() - i,
{
    if i < 0 || i > p.len() {
        Seq::empty()
    } else {
        match text::find_from(p, seq!['/'], i) {
            Some(j) => if i <= j < p.len() {
                let piece = p.subrange(i, j);
                let rest = components_from(p, j + 1);
                if keep_component(piece) {
                    seq![piece] + rest
                } else {
                    rest
                }
            } else {
                Seq::empty()
            },
            None => {
                let piece = p.subrange(i, p.len() as int);
                if keep_component(piece) {
                    seq![piece]
                } else {
                    Seq::empty()
                }
            },
        }
    }
}

pub open spec fn path_components(p: Seq<char>) -> Seq<Seq<char>> {
    components_from(p, 0)
}

/// How many leading components `a` and `b` share, from `i` on.
pub open spec fn common_from(a: Seq<Seq<char>>, b: Seq<Seq<char>>, i: int) -> int
    decreases a.len() - i,
{
    if 0 <= i < a.len() && i < b.len() && a[i] == b[i] {
        common_from(a, b, i + 1)
    } else {
        i
    }
}

/// Parts joined with `/`.
pub open spec fn join_slash(parts: Seq<Seq<char>>) -> Seq<char>
    decreases parts.len(),
{
    if parts.len() == 0 {
        Seq::empty()
    } else if parts.len() == 1 {
        parts[0]
    } else {
        join_slash(parts.drop_last()) + seq!['/'] + parts.last()
    }
}

/// The `../`-style path from the directory of `from` to `to` (both taken relative
/// to `root`); `.` when they coincide.
pub open spec fn relative_url(root: Seq<char>, from: Seq<char>, to: Seq<char>) -> Seq<char> {
    let fc = path_components(display_path(root, from));
    let fd = if fc.len() > 0 {
        fc.drop_last()
    } else {
        fc
    };
    let tc = path_components(display_path(root, to));
    let c = common_from(fd, tc, 0);
    let parts = Seq::new((fd.len() - c) as nat, |i: int| seq!['.', '.']) + tc.subrange(c, tc.len() as int);
    if parts.len() == 0 {
        seq!['.']
    } else {
        join_slash(parts)
    }
}

proof fn lemma_common_from(a: Seq<Seq<char>>, b: Seq<Seq<char>>, i: int)
    requires
        0 <= i <= a.len(),
        i <= b.len(),
    ensures
        i <= common_from(a, b, i) <= a.len(),
        common_from(a, b, i) <= b.len(),
    decreases a.len() - i,
{
    if i < a.len() && i < b.len() && a[i] == b[i] {
        lemma_common_from(a, b, i + 1);
    }
}

fn components_exec(p: &[char]) -> (r: Vec<Vec<char>>)
    ensures
        text::views(r@) == path_components(p@),
{
    let slash = vec!['/'];
    assert(slash@ =~= seq!['/']);
    let len = p.len();
    let mut out: Vec<Vec<char>> = Vec::new();
    let mut i: usize = 0;
    loop
        invariant
            len == p@.len(),
            i <= len,
            slash@ == seq!['/'],
            text::views(out@) + components_from(p@, i as int) == path_components(p@),
        decreases len - i,
    {
        let ghost before = text::views(out@);
        proof {
            text::lemma_find_from_bounds(p@, slash@, i as int);
        }
        match text::find_seq(p, slash.as_slice(), i) {
            Some(j) => {
                let piece = text::slice_range(p, i, j);
                let keep = piece.len() > 0 && !(piece.len() == 1 && piece[0] == '.') && !(piece.len() == 2
                    && piece[0] == '.' && piece[1] == '.');
                proof {
                    if piece@.len() == 1 && piece@[0] == '.' {
                        assert(piece@ =~= seq!['.']);
                    }
                    if piece@.len() == 2 && piece@[0] == '.' && piece@[1] == '.' {
                        assert(piece@ =~= seq!['.', '.']);
                    }
                    assert(keep == keep_component(piece@));
                }
                if keep {
                    out.push(piece);
                    assert(text::views(out@) =~= before.push(p@.subrange(i as int, j as int)));
                }
                i = j + 1;
            },
            None => {
                let piece = text::slice_range(p, i, len);
                let keep = piece.len() > 0 && !(piece.len() == 1 && piece[0] == '.') && !(piece.len() == 2
                    && piece[0] == '.' && piece[1] == '.');
                proof {
                    if piece@.len() == 1 && piece@[0] == '.' {
                        assert(piece@ =~= seq!['.']);
                    }
                    if piece@.len() == 2 && piece@[0] == '.' && piece@[1] == '.' {
                        assert(piece@ =~= seq!['.', '.']);
                    }
                    assert(keep == keep_component(piece@));
                }
                if keep {
                    out.push(piece);
                    assert(text::views(out@) =~= before.push(p@.subrange(i as int, len as int)));
                } else {
                    assert(text::views(out@) =~= before + Seq::empty());
                }
                return out;
            },
        }
    }
}

/// The relative link path from one file to another.
pub fn relative_url_exec(root: &str, from: &str, to: &str) -> (r: Vec<char>)
    ensures
        r@ == relative_url(root@, from@, to@),
{
    let fr = checker::display_path_exec(root, from);
    let tr = checker::display_path_exec(root, to);
    let frv = chars_of(fr.as_str());
    let trv = chars_of(tr.as_str());
    let mut fd = components_exec(frv.as_slice());
    let tc = components_exec(trv.as_slice());
    if fd.len() > 0 {
        let ghost before = fd@;
        fd.pop();
        assert(text::views(fd@) =~= text::views(before).drop_last());
    }
    let ghost fdv = text::views(fd@);
    let ghost tcv = text::views(tc@);
    let mut c: usize = 0;
    while c < fd.len() && c < tc.len() && order_equal(&fd[c], &tc[c])
        invariant
            c <= fd@.len(),
            c <= tc@.len(),
            fdv == text::views(fd@),
            tcv == text::views(tc@),
            common_from(fdv, tcv, 0) == common_from(fdv, tcv, c as int),
        decreases fd@.len() - c,
    {
        c = c + 1;
    }
    proof {
        lemma_common_from(fdv, tcv, 0);
    }
    let ghost parts = Seq::new((fdv.len() - c) as nat, |i: int| seq!['.', '.']) + tcv.subrange(
        c as int,
        tcv.len() as int,
    );
    let mut out: Vec<char> = Vec::new();
    let ghost mut n: int = 0;
    let mut any = false;
    let mut k: usize = c;
    while k < fd.len()
        invariant
            c <= k <= fd@.len(),
            n == k - c,
            any == (n > 0),
            fdv == text::views(fd@),
            c <= tcv.len(),
            out@ == join_slash(parts.subrange(0, n)),
            parts == Seq::new((fdv.len() - c) as nat, |i: int| seq!['.', '.']) + tcv.subrange(
                c as int,
                tcv.len() as int,
            ),
        decreases fd@.len() - k,
    {
        if any {
            out.push('/');
        }
        out.push('.');
        out.push('.');
        any = true;
        proof {
            let p = parts.subrange(0, n + 1);
            assert(p.drop_last() =~= parts.subrange(0, n));
            assert(p.last() =~= seq!['.', '.']);
            n = n + 1;
        }
        k = k + 1;
    }
    let mut m: usize = c;
    while m < tc.len()
        invariant
            c <= m <= tc@.len(),
            c <= fdv.len(),
            tcv.len() == tc@.len(),
            n == (fdv.len() - c) + (m - c),
            any == (n > 0),
            fdv == text::views(fd@),
            tcv == text::views(tc@),
            out@ == join_slash(parts.subrange(0, n)),
            parts == Seq::new((fdv.len() - c) as nat, |i: int| seq!['.', '.']) + tcv.subrange(
                c as int,
                tcv.len() as int,
            ),
        decreases tc@.len() - m,
    {
        let ghost before = out@;
        if any {
            out.push('/');
        }
        text::push_all(&mut out, tc[m].as_slice());
        any = true;
        proof {
            let p = parts.subrange(0, n + 1);
            assert(p.drop_last() =~= parts.subrange(0, n));
            assert(parts[n] == tcv[m as int]);
            assert(p.last() == tcv[m as int]);
            assert(tcv[m as int] == tc@[m as int]@);
            if n > 0 {
                assert(out@ =~= before + seq!['/'] + tcv[m as int]);
            } else {
                assert(out@ =~= tcv[m as int]);
            }
            n = n + 1;
        }
        m = m + 1;
    }
    assert(parts.subrange(0, n) =~= parts);
    if !any {
        let dot = vec!['.'];
        assert(dot@ =~= seq!['.']);
        return dot;
    }
    out
}

fn order_equal(a: &Vec<char>, b: &Vec<char>) -> (r: bool)
    ensures
        r == (a@ == b@),
{
    crate::order::chars_equal(a.as_slice(), b.as_slice())
}

// ---------------------------------------------------------------- link targets

/// The first stub declaration at or after `i`.
pub open spec fn first_stub_from(ds: Seq<model::DeclarationV>, i: int) -> Option<int>
    decreases ds.len() - i,
{
    if i < 0 || i >= ds.len() {
        None
    } else if ds[i].is_stub {
        Some(i)
    } else {
        first_stub_from(ds, i + 1)
    }
}

/// The text of a declaration's heading: the rendered ID, then `: <title>` if any.
pub open spec fn declaration_heading_text(g: grammar::GrammarV, d: model::DeclarationV) -> Seq<char> {
    grammar::render_id(g, d.id) + match d.title {
        Some(t) => ": "@ + t,
        None => Seq::empty(),
    }
}

/// The anchor text of section `sec` of a declaration, from its first heading with
/// that path.
pub open spec fn section_title_from(secs: Seq<(Seq<char>, Seq<char>, usize, usize)>, sec: Seq<char>, i: int) -> Option<Seq<char>>
    decreases secs.len() - i,
{
    if i < 0 || i >= secs.len() {
        None
    } else if secs[i].0 == sec {
        Some(secs[i].1)
    } else {
        section_title_from(secs, sec, i + 1)
    }
}

/// The text of the first of `homes` (from `i` on) at `path`, when that file was read.
pub open spec fn home_text(homes: Seq<SourceFile>, path: Seq<char>, i: int) -> Option<Seq<char>>
    decreases homes.len() - i,
{
    if i < 0 || i >= homes.len() {
        None
    } else if homes[i].path@ == path {
        match homes[i].content {
            Ok(t) => Some(t@),
            Err(_) => None,
        }
    } else {
        home_text(homes, path, i + 1)
    }
}

/// A Markdown home's lines read again for a cited section: after a heading that
/// declares `id`, and before the next heading that declares another ID, the first
/// section heading at path `sec`, as its anchor text.
pub open spec fn section_heading_from(g: grammar::GrammarV, lines: Seq<Seq<char>>, id: model::IdV, sec: Seq<char>, i: int, in_decl: bool) -> Option<Seq<char>>
    decreases lines.len() - i,
{
    if i < 0 || i >= lines.len() {
        None
    } else {
        let line = lines[i];
        let found = match grammar::declaration_at(g, line, Seq::empty(), true) {
            Some(m) => Some(model::id_key(m.id) == model::id_key(id)),
            None => None,
        };
        if found == Some(false) && in_decl {
            None
        } else if found == Some(true) {
            section_heading_from(g, lines, id, sec, i + 1, true)
        } else if in_decl && (grammar::section_heading_at(g, line, Seq::empty(), true) matches Some((s, _))
            && s == sec) {
            Some(scanner::section_anchor_text(line, sec))
        } else {
            section_heading_from(g, lines, id, sec, i + 1, in_decl)
        }
    }
}

/// Where a citation of `id` (and `section`) in file `from` links to: the path from
/// `from` to the ID's home (a stub's target when the ID has a stub), plus, for a
/// Markdown home under an anchor profile other than `none`, `#` and the slug of the
/// cited section's heading or of the declaration's own heading. A section missing
/// from the scanned declaration is looked up in the home's text, when `homes`
/// holds it. `None` when the ID or the section does not resolve.
pub open spec fn link_target(root: Seq<char>, g: grammar::GrammarV, profile: Seq<char>, gs: Seq<(model::IdV, Seq<model::DeclarationV>)>, homes: Seq<SourceFile>, from: Seq<char>, id: model::IdV, section: Option<Seq<char>>) -> Option<Seq<char>> {
    match group_index(gs, id) {
        None => None,
        Some(k) => {
            let ds = gs[k].1;
            match checker::report_decl(root, ds) {
                None => None,
                Some(home_decl) => {
                    let home = match first_stub_from(ds, 0) {
                        Some(si) => match ds[si].defined_in {
                            Some(t) => Some(checker::join_path(root, t)),
                            None => None,
                        },
                        None => Some(home_decl.file),
                    };
                    match home {
                        None => None,
                        Some(h) => {
                            let rel = relative_url(root, from, h);
                            if scanner::extension(h) != Some(scanner::md_ext()) || profile == "none"@ {
                                Some(rel)
                            } else {
                                let heading = match section {
                                    Some(sec) => match section_title_from(home_decl.sections, sec, 0) {
                                        Some(t) => Some(t),
                                        None => match home_text(homes, h, 0) {
                                            Some(t) => section_heading_from(g, text::spec_lines(t), id, sec, 0, false),
                                            None => None,
                                        },
                                    },
                                    None => Some(declaration_heading_text(g, home_decl)),
                                };
                                match heading {
                                    Some(t) => Some(rel + seq!['#'] + anchor_slug(t, profile)),
                                    None => None,
                                }
                            }
                        },
                    }
                },
            }
        },
    }
}

fn first_stub_exec(ds: &Vec<Declaration>) -> (r: Option<usize>)
    ensures
        match r {
            Some(i) => first_stub_from(model::decl_views(ds@), 0) == Some(i as int) && i < ds@.len(),
            None => first_stub_from(model::decl_views(ds@), 0) is None,
        },
{
    let ghost dv = model::decl_views(ds@);
    let mut i: usize = 0;
    while i < ds.len()
        invariant
            i <= ds@.len(),
            dv == model::decl_views(ds@),
            first_stub_from(dv, 0) == first_stub_from(dv, i as int),
        decreases ds@.len() - i,
    {
        if ds[i].is_stub {
            return Some(i);
        }
        i = i + 1;
    }
    None
}

fn section_title_exec(d: &Declaration, sec: &String) -> (r: Option<String>)
    ensures
        match r {
            Some(t) => section_title_from(d@.sections, sec@, 0) == Some(t@),
            None => section_title_from(d@.sections, sec@, 0) is None,
        },
{
    let ghost sv = d@.sections;
    let mut i: usize = 0;
    while i < d.sections.len()
        invariant
            i <= d.sections@.len(),
            sv == d@.sections,
            section_title_from(sv, sec@, 0) == section_title_from(sv, sec@, i as int),
        decreases d.sections@.len() - i,
    {
        if d.sections[i].0.eq(sec) {
            return Some(d.sections[i].1.title.clone());
        }
        i = i + 1;
    }
    None
}

pub fn declaration_heading_text_exec(g: &Grammar, d: &Declaration) -> (r: Vec<char>)
    requires
        g.wf(),
    ensures
        r@ == declaration_heading_text(g@, d@),
{
    let mut out = g.render_id(&d.id);
    match &d.title {
        Some(t) => {
            let sep = chars_of(": ");
            text::push_all(&mut out, sep.as_slice());
            let tv = chars_of(t.as_str());
            text::push_all(&mut out, tv.as_slice());
        },
        None => {},
    }
    assert(out@ =~= declaration_heading_text(g@, d@));
    out
}

/// The first home of a group's declarations, else its first declaration.
fn report_decl_index(root: &str, ds: &Vec<Declaration>) -> (r: Option<usize>)
    ensures
        match r {
            Some(i) => i < ds@.len() && checker::report_decl(root@, model::decl_views(ds@)) == Some(
                model::decl_views(ds@)[i as int],
            ),
            None => checker::report_decl(root@, model::decl_views(ds@)) is None,
        },
{
    let ghost dv = model::decl_views(ds@);
    let mut i: usize = 0;
    while i < ds.len()
        invariant
            i <= ds@.len(),
            dv == model::decl_views(ds@),
            checker::first_home_from(root@, dv, 0) == checker::first_home_from(root@, dv, i as int),
        decreases ds@.len() - i,
    {
        if !checker::stub_for_inline_exec(root, &ds[i], ds) {
            return Some(i);
        }
        i = i + 1;
    }
    if ds.len() > 0 {
        Some(0)
    } else {
        None
    }
}

fn home_text_exec(homes: &Vec<SourceFile>, path: &str) -> (r: Option<String>)
    ensures
        match r {
            Some(t) => home_text(homes@, path@, 0) == Some(t@),
            None => home_text(homes@, path@, 0) is None,
        },
{
    let ps = String::from_str(path);
    let mut i: usize = 0;
    while i < homes.len()
        invariant
            i <= homes@.len(),
            ps@ == path@,
            home_text(homes@, path@, 0) == home_text(homes@, path@, i as int),
        decreases homes@.len() - i,
    {
        if model::string_eq(&homes[i].path, &ps) {
            return match &homes[i].content {
                Ok(t) => Some(t.clone()),
                Err(_) => None,
            };
        }
        i = i + 1;
    }
    None
}

/// A cited section's anchor text read from its home's text, as
/// `section_heading_from` defines it.
fn section_heading_exec(g: &Grammar, t: &str, id: &Id, sec: &String) -> (r: Option<Vec<char>>)
    requires
        g.wf(),
    ensures
        match r {
            Some(h) => section_heading_from(g@, text::spec_lines(t@), id@, sec@, 0, false) == Some(h@),
            None => section_heading_from(g@, text::spec_lines(t@), id@, sec@, 0, false) is None,
        },
{
    let tv = chars_of(t);
    let lines = text::split_lines(tv.as_slice());
    let ghost ls = text::spec_lines(t@);
    let none: Vec<Vec<char>> = Vec::new();
    assert(text::views(none@) =~= Seq::<Seq<char>>::empty());
    let sv = chars_of(sec.as_str());
    let mut in_decl = false;
    let mut i: usize = 0;
    while i < lines.len()
        invariant
            i <= lines@.len(),
            g.wf(),
            text::views(lines@) == ls,
            ls == text::spec_lines(t@),
            text::views(none@) == Seq::<Seq<char>>::empty(),
            sv@ == sec@,
            section_heading_from(g@, ls, id@, sec@, 0, false) == section_heading_from(g@, ls, id@, sec@, i as int, in_decl),
        decreases lines@.len() - i,
    {
        let line = &lines[i];
        assert(ls[i as int] == line@);
        let (is_decl, same) = match g.declaration_at(line.as_slice(), &none, true) {
            Some(m) => (true, m.id.same(id)),
            None => (false, false),
        };
        assert(is_decl == (grammar::declaration_at(g@, line@, Seq::empty(), true) is Some));
        assert(is_decl ==> same == (model::id_key(grammar::declaration_at(g@, line@, Seq::empty(), true)->0.id)
            == model::id_key(id@)));
        if is_decl && !same && in_decl {
            assert(section_heading_from(g@, ls, id@, sec@, i as int, in_decl) is None);
            return None;
        } else if is_decl && same {
            in_decl = true;
        } else if in_decl {
            match g.section_heading_at(line.as_slice(), &none, true) {
                Some((s, _)) => {
                    if crate::order::chars_equal(s.as_slice(), sv.as_slice()) {
                        let r = scanner::section_anchor_text_of(line.as_slice(), sv.as_slice());
                        assert(section_heading_from(g@, ls, id@, sec@, i as int, in_decl) == Some(r@));
                        return Some(r);
                    }
                },
                None => {},
            }
        }
        i = i + 1;
    }
    None
}

/// The link a citation of `id` from `from` gets, as `link_target` defines it.
pub fn markdown_link_target(config: &Config, g: &Grammar, f: &Findings, homes: &Vec<SourceFile>, from: &str, id: &Id, section: &Option<String>) -> (r: Option<Vec<char>>)
    requires
        g.wf(),
    ensures
        match r {
            Some(t) => link_target(
                config.root@,
                g@,
                config.cross_ref_anchor_format@,
                groups_view(f.declarations@),
                homes@,
                from@,
                id@,
                model::opt_view(*section),
            ) == Some(t@),
            None => link_target(
                config.root@,
                g@,
                config.cross_ref_anchor_format@,
                groups_view(f.declarations@),
                homes@,
                from@,
                id@,
                model::opt_view(*section),
            ) is None,
        },
{
    let ghost gs = groups_view(f.declarations@);
    let root = config.root.as_str();
    let k = match checker::find_group(f, id) {
        Some(k) => k,
        None => {
            return None;
        },
    };
    let ds = &f.declarations[k].decls;
    assert(gs[k as int].1 == model::decl_views(ds@));
    let hi = match report_decl_index(root, ds) {
        Some(i) => i,
        None => {
            return None;
        },
    };
    let home_decl = &ds[hi];
    let home: String = match first_stub_exec(ds) {
        Some(si) => match &ds[si].defined_in {
            Some(t) => checker::join_path_exec(root, t.as_str()),
            None => {
                return None;
            },
        },
        None => home_decl.file.clone(),
    };
    let rel = relative_url_exec(root, from, home.as_str());
    let hv = chars_of(home.as_str());
    let md = vec!['m', 'd'];
    assert(md@ =~= scanner::md_ext());
    let is_md = scanner::has_extension(hv.as_slice(), md.as_slice());
    if !is_md || config.cross_ref_anchor_format.eq(&String::from_str("none")) {
        return Some(rel);
    }
    let heading: Vec<char> = match section {
        Some(sec) => match section_title_exec(home_decl, sec) {
            Some(t) => chars_of(t.as_str()),
            None => match home_text_exec(homes, home.as_str()) {
                Some(t) => match section_heading_exec(g, t.as_str(), id, sec) {
                    Some(h) => h,
                    None => {
                        return None;
                    },
                },
                None => {
                    return None;
                },
            },
        },
        None => declaration_heading_text_exec(g, home_decl),
    };
    let hs = string_from_chars(heading.as_slice());
    let slug = anchor_slug_exec(hs.as_str(), config.cross_ref_anchor_format.as_str());
    let mut out = rel;
    out.push('#');
    text::push_all(&mut out, slug.as_slice());
    Some(out)
}

} // verus!
