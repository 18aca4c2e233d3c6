//! The ID grammar: how `[id] format`, the configured kinds, the slug pattern and
//! the section separator turn a line of text into IDs, citations, declaration
//! headings and section headings.
use vstd::prelude::*;
use crate::text;
use crate::model;
use crate::model::{Config, Id};
use crate::pattern;
use crate::pattern::{CompiledRegex, regex_is_match};

verus! {

pub open spec fn is_digit(c: char) -> bool {
    '0' <= c && c <= '9'
}

pub open spec fn is_upper(c: char) -> bool {
    'A' <= c && c <= 'Z'
}

pub open spec fn is_lower(c: char) -> bool {
    'a' <= c && c <= 'z'
}

pub open spec fn is_alnum(c: char) -> bool {
    is_digit(c) || is_upper(c) || is_lower(c)
}

/// A regex word character, as `\b` sees it in this grammar.
pub open spec fn is_word(c: char) -> bool {
    is_alnum(c) || c == '_'
}

pub open spec fn is_kind_char(c: char) -> bool {
    is_upper(c) || is_digit(c)
}

pub open spec fn is_slug_char(c: char) -> bool {
    is_alnum(c) || c == '_' || c == '-'
}

pub open spec fn is_alias_char(c: char) -> bool {
    is_lower(c) || is_digit(c) || c == '-'
}

pub fn char_is_digit(c: char) -> (r: bool)
    ensures
        r == is_digit(c),
{
    '0' <= c && c <= '9'
}

pub fn char_is_word(c: char) -> (r: bool)
    ensures
        r == is_word(c),
{
    ('0' <= c && c <= '9') || ('A' <= c && c <= 'Z') || ('a' <= c && c <= 'z') || c == '_'
}

/// Which character class a run is made of.
pub enum CharClass {
    Digit,
    KindChar,
    SlugChar,
    AliasChar,
    Hash,
    /// ASCII alphanumerics, `-`, `_` and `.`: a loosely parsed ID token.
    Loose,
}

pub open spec fn in_class(cls: CharClass, c: char) -> bool {
    match cls {
        CharClass::Digit => is_digit(c),
        CharClass::KindChar => is_kind_char(c),
        CharClass::SlugChar => is_slug_char(c),
        CharClass::AliasChar => is_alias_char(c),
        CharClass::Hash => c == '#',
        CharClass::Loose => is_alnum(c) || c == '-' || c == '_' || c == '.',
    }
}

fn char_in_class(cls: &CharClass, c: char) -> (r: bool)
    ensures
        r == in_class(*cls, c),
{
    match cls {
        CharClass::Digit => '0' <= c && c <= '9',
        CharClass::KindChar => ('A' <= c && c <= 'Z') || ('0' <= c && c <= '9'),
        CharClass::SlugChar => ('0' <= c && c <= '9') || ('A' <= c && c <= 'Z') || ('a' <= c && c
            <= 'z') || c == '_' || c == '-',
        CharClass::AliasChar => ('a' <= c && c <= 'z') || ('0' <= c && c <= '9') || c == '-',
        CharClass::Hash => c == '#',
        CharClass::Loose => ('0' <= c && c <= '9') || ('A' <= c && c <= 'Z') || ('a' <= c && c
            <= 'z') || c == '-' || c == '_' || c == '.',
    }
}

/// End of the maximal run of `cls` characters starting at `i`.
pub open spec fn run_end(cls: CharClass, s: Seq<char>, i: int) -> int
    decreases s.len() - i,
{
    if i < 0 || i >= s.len() {
        i
    } else if in_class(cls, s[i]) {
        run_end(cls, s, i + 1)
    } else {
        i
    }
}

pub proof fn lemma_run_end(cls: CharClass, s: Seq<char>, i: int)
    requires
        0 <= i <= s.len(),
    ensures
        i <= run_end(cls, s, i) <= s.len(),
        forall|k: int| i <= k < run_end(cls, s, i) ==> in_class(cls, #[trigger] s[k]),
        run_end(cls, s, i) < s.len() ==> !in_class(cls, s[run_end(cls, s, i)]),
    decreases s.len() - i,
{
    if i < s.len() && in_class(cls, s[i]) {
        lemma_run_end(cls, s, i + 1);
    }
}

pub fn scan_run(cls: &CharClass, s: &[char], i: usize) -> (r: usize)
    requires
        i <= s@.len(),
    ensures
        r == run_end(*cls, s@, i as int),
        i <= r <= s@.len(),
{
    proof {
        lemma_run_end(*cls, s@, i as int);
    }
    let mut j = i;
    while j < s.len() && char_in_class(cls, s[j])
        invariant
            i <= j <= s@.len(),
            run_end(*cls, s@, j as int) == run_end(*cls, s@, i as int),
        decreases s@.len() - j,
    {
        j = j + 1;
    }
    j
}

/// Drops trailing `-` characters from `s[i..e]`.
pub open spec fn trim_dashes(s: Seq<char>, i: int, e: int) -> int
    decreases e - i,
{
    if e > i && e <= s.len() && s[e - 1] == '-' {
        trim_dashes(s, i, e - 1)
    } else {
        e
    }
}

/// End of the slug candidate at `i`: the run of slug characters without trailing `-`.
pub open spec fn slug_end(s: Seq<char>, i: int) -> int {
    trim_dashes(s, i, run_end(CharClass::SlugChar, s, i))
}

proof fn lemma_trim_dashes(s: Seq<char>, i: int, e: int)
    requires
        i <= e <= s.len(),
    ensures
        i <= trim_dashes(s, i, e) <= e,
    decreases e - i,
{
    if e > i && s[e - 1] == '-' {
        lemma_trim_dashes(s, i, e - 1);
    }
}

pub fn scan_slug_end(s: &[char], i: usize) -> (r: usize)
    requires
        i <= s@.len(),
    ensures
        r == slug_end(s@, i as int),
        i <= r <= s@.len(),
{
    let e = scan_run(&CharClass::SlugChar, s, i);
    let mut j = e;
    proof {
        lemma_trim_dashes(s@, i as int, e as int);
    }
    while j > i && s[j - 1] == '-'
        invariant
            i <= j <= e <= s@.len(),
            trim_dashes(s@, i as int, j as int) == trim_dashes(s@, i as int, e as int),
        decreases j,
    {
        j = j - 1;
    }
    j
}

/// Decimal value of a digit string.
pub open spec fn digits_value(d: Seq<char>) -> nat
    decreases d.len(),
{
    if d.len() == 0 {
        0
    } else {
        digits_value(d.drop_last()) * 10 + ((d.last() as int - '0' as int) as nat)
    }
}

/// Parses `s[i..e]` (all digits) as a `u32`; `None` when it does not fit.
pub fn parse_u32_digits(s: &[char], i: usize, e: usize) -> (r: Option<u32>)
    requires
        i <= e <= s@.len(),
        forall|k: int| i <= k < e ==> is_digit(#[trigger] s@[k]),
    ensures
        r matches Some(n) ==> n == digits_value(s@.subrange(i as int, e as int)),
        r is None ==> digits_value(s@.subrange(i as int, e as int)) > u32::MAX,
{
    let mut v: u64 = 0;
    let mut k = i;
    while k < e
        invariant
            i <= k <= e <= s@.len(),
            forall|m: int| i <= m < e ==> is_digit(#[trigger] s@[m]),
            v == digits_value(s@.subrange(i as int, k as int)),
            v <= u32::MAX,
        decreases e - k,
    {
        let d = s[k];
        let dv: u64 = if d == '0' { 0 } else if d == '1' { 1 } else if d == '2' { 2 } else if d
            == '3' { 3 } else if d == '4' { 4 } else if d == '5' { 5 } else if d == '6' { 6 } else if d
            == '7' { 7 } else if d == '8' { 8 } else { 9 };
        proof {
            assert(s@.subrange(i as int, k + 1).drop_last() =~= s@.subrange(i as int, k as int));
            assert(s@.subrange(i as int, k + 1).last() == d);
            assert(dv == (d as int - '0' as int));
        }
        let nv = v * 10 + dv;
        if nv > 4294967295 {
            proof {
                lemma_digits_value_monotone(s@, i as int, k + 1, e as int);
            }
            return None;
        }
        v = nv;
        k = k + 1;
    }
    Some(v as u32)
}

proof fn lemma_digits_value_monotone(s: Seq<char>, i: int, k: int, e: int)
    requires
        0 <= i <= k <= e <= s.len(),
        forall|m: int| i <= m < e ==> is_digit(#[trigger] s[m]),
    ensures
        digits_value(s.subrange(i, k)) <= digits_value(s.subrange(i, e)),
    decreases e - k,
{
    if k < e {
        lemma_digits_value_monotone(s, i, k, e - 1);
        assert(s.subrange(i, e).drop_last() =~= s.subrange(i, e - 1));
    }
}

} // verus!

verus! {

/// One element of `[id] format`: a literal character (given by its index in the
/// format text) or a placeholder.
#[derive(Clone, Copy)]
pub enum FormatPart {
    Lit(usize),
    Kind,
    Number,
    Slug,
}

pub open spec fn kind_placeholder() -> Seq<char> {
    seq!['{', 'k', 'i', 'n', 'd', '}']
}

pub open spec fn number_placeholder() -> Seq<char> {
    seq!['{', 'n', 'u', 'm', 'b', 'e', 'r', '}']
}

pub open spec fn slug_placeholder() -> Seq<char> {
    seq!['{', 's', 'l', 'u', 'g', '}']
}

/// `[id] format` read left to right: `{kind}`, `{number}` and `{slug}` are
/// placeholders, every other character is literal.
pub open spec fn format_parts_from(f: Seq<char>, i: int) -> Seq<FormatPart>
    decreases f.len() - i,
{
    if i < 0 || i >= f.len() {
        Seq::empty()
    } else if text::occurs_at(f, kind_placeholder(), i) {
        seq![FormatPart::Kind] + format_parts_from(f, i + 6)
    } else if text::occurs_at(f, number_placeholder(), i) {
        seq![FormatPart::Number] + format_parts_from(f, i + 8)
    } else if text::occurs_at(f, slug_placeholder(), i) {
        seq![FormatPart::Slug] + format_parts_from(f, i + 6)
    } else {
        seq![FormatPart::Lit(i as usize)] + format_parts_from(f, i + 1)
    }
}

pub open spec fn format_parts(f: Seq<char>) -> Seq<FormatPart> {
    format_parts_from(f, 0)
}

pub fn parse_format(f: &[char]) -> (r: Vec<FormatPart>)
    ensures
        r@ == format_parts(f@),
{
    let kind_ph: Vec<char> = vec!['{', 'k', 'i', 'n', 'd', '}'];
    let number_ph: Vec<char> = vec!['{', 'n', 'u', 'm', 'b', 'e', 'r', '}'];
    let slug_ph: Vec<char> = vec!['{', 's', 'l', 'u', 'g', '}'];
    assert(kind_ph@ == kind_placeholder());
    assert(number_ph@ == number_placeholder());
    assert(slug_ph@ == slug_placeholder());
    let mut out: Vec<FormatPart> = Vec::new();
    let mut i: usize = 0;
    while i < f.len()
        invariant
            i <= f@.len(),
            kind_ph@ == kind_placeholder(),
            number_ph@ == number_placeholder(),
            slug_ph@ == slug_placeholder(),
            out@ + format_parts_from(f@, i as int) == format_parts(f@),
        decreases f@.len() - i,
    {
        let ghost before = out@;
        let ghost i0 = i as int;
        let part;
        if text::matches_at(f, i, &kind_ph) {
            part = FormatPart::Kind;
            i = i + 6;
        } else if text::matches_at(f, i, &number_ph) {
            part = FormatPart::Number;
            i = i + 8;
        } else if text::matches_at(f, i, &slug_ph) {
            part = FormatPart::Slug;
            i = i + 6;
        } else {
            part = FormatPart::Lit(i);
            i = i + 1;
        }
        out.push(part);
        assert(format_parts_from(f@, i0) == seq![part] + format_parts_from(f@, i as int));
        assert(out@ + format_parts_from(f@, i as int) =~= before + format_parts_from(f@, i0));
    }
    assert(out@ =~= out@ + format_parts_from(f@, i as int));
    out
}

} // verus!

verus! {

/// The compiled ID grammar of one configuration.
pub struct Grammar {
    pub format: Vec<char>,
    pub parts: Vec<FormatPart>,
    pub kinds: Vec<Vec<char>>,
    pub sep: Vec<char>,
    pub slug_re: CompiledRegex,
}

pub ghost struct GrammarV {
    pub format: Seq<char>,
    pub parts: Seq<FormatPart>,
    pub kinds: Seq<Seq<char>>,
    pub sep: Seq<char>,
    pub slug_src: Seq<char>,
}

impl View for Grammar {
    type V = GrammarV;

    open spec fn view(&self) -> GrammarV {
        GrammarV {
            format: self.format@,
            parts: self.parts@,
            kinds: text::views(self.kinds@),
            sep: self.sep@,
            slug_src: self.slug_re.source(),
        }
    }
}

/// `^(?:<pattern>)$`: the slug pattern anchored so it must match the whole slug.
pub open spec fn anchored(p: Seq<char>) -> Seq<char> {
    seq!['^', '(', '?', ':'] + p + seq![')', '$']
}

/// The grammar a configuration describes.
pub open spec fn grammar_of(c: Config) -> GrammarV {
    GrammarV {
        format: c.id_format@,
        parts: format_parts(c.id_format@),
        kinds: model::kind_prefix_views(c.kinds@),
        sep: c.section_separator@,
        slug_src: anchored(c.slug_pattern@),
    }
}

pub open spec fn empty_id() -> model::IdV {
    model::IdV { kind: Seq::empty(), num: None, slug: None }
}

/// Matches `[id] format` parts `k..` at position `i`, accumulating the ID's fields.
pub open spec fn match_parts(g: GrammarV, s: Seq<char>, i: int, k: int, acc: model::IdV) -> Option<(int, model::IdV)>
    decreases g.parts.len() - k,
{
    if i < 0 || i > s.len() || k < 0 || k > g.parts.len() {
        None
    } else if k == g.parts.len() {
        Some((i, acc))
    } else {
        match g.parts[k] {
            FormatPart::Lit(li) => if i < s.len() && li < g.format.len() && s[i] == g.format[li as int] {
                match_parts(g, s, i + 1, k + 1, acc)
            } else {
                None
            },
            FormatPart::Kind => {
                let e = run_end(CharClass::KindChar, s, i);
                if e > i && g.kinds.contains(s.subrange(i, e)) {
                    match_parts(g, s, e, k + 1, model::IdV { kind: s.subrange(i, e), ..acc })
                } else {
                    None
                }
            },
            FormatPart::Number => {
                let e = run_end(CharClass::Digit, s, i);
                if e > i && digits_value(s.subrange(i, e)) <= u32::MAX {
                    match_parts(
                        g,
                        s,
                        e,
                        k + 1,
                        model::IdV { num: Some(digits_value(s.subrange(i, e)) as u32), ..acc },
                    )
                } else {
                    None
                }
            },
            FormatPart::Slug => {
                let e = slug_end(s, i);
                if e > i && pattern::regex_matches(g.slug_src, s.subrange(i, e)) {
                    match_parts(g, s, e, k + 1, model::IdV { slug: Some(s.subrange(i, e)), ..acc })
                } else {
                    None
                }
            },
        }
    }
}

/// An ID written at position `i`: its end and its fields.
pub open spec fn match_id(g: GrammarV, s: Seq<char>, i: int) -> Option<(int, model::IdV)> {
    match_parts(g, s, i, 0, empty_id())
}

pub proof fn lemma_match_parts_end(g: GrammarV, s: Seq<char>, i: int, k: int, acc: model::IdV)
    ensures
        match_parts(g, s, i, k, acc) matches Some((e, _)) ==> i <= e <= s.len(),
    decreases g.parts.len() - k,
{
    if i < 0 || i > s.len() || k < 0 || k > g.parts.len() {
    } else if k == g.parts.len() {
    } else {
        match g.parts[k] {
            FormatPart::Lit(li) => {
                lemma_match_parts_end(g, s, i + 1, k + 1, acc);
            },
            FormatPart::Kind => {
                let e = run_end(CharClass::KindChar, s, i);
                lemma_run_end(CharClass::KindChar, s, i);
                lemma_match_parts_end(g, s, e, k + 1, model::IdV { kind: s.subrange(i, e), ..acc });
            },
            FormatPart::Number => {
                let e = run_end(CharClass::Digit, s, i);
                lemma_run_end(CharClass::Digit, s, i);
                lemma_match_parts_end(
                    g,
                    s,
                    e,
                    k + 1,
                    model::IdV { num: Some(digits_value(s.subrange(i, e)) as u32), ..acc },
                );
            },
            FormatPart::Slug => {
                let e = slug_end(s, i);
                lemma_run_end(CharClass::SlugChar, s, i);
                lemma_trim_dashes(s, i, run_end(CharClass::SlugChar, s, i));
                lemma_match_parts_end(g, s, e, k + 1, model::IdV { slug: Some(s.subrange(i, e)), ..acc });
            },
        }
    }
}

/// Whether `s[i..e]` is one of the configured kind prefixes.
fn is_kind_prefix(kinds: &Vec<Vec<char>>, s: &[char], i: usize, e: usize) -> (r: bool)
    requires
        i <= e <= s@.len(),
    ensures
        r == text::views(kinds@).contains(s@.subrange(i as int, e as int)),
{
    let ghost want = s@.subrange(i as int, e as int);
    let mut k: usize = 0;
    while k < kinds.len()
        invariant
            k <= kinds@.len(),
            i <= e <= s@.len(),
            want == s@.subrange(i as int, e as int),
            forall|m: int| 0 <= m < k ==> text::views(kinds@)[m] != want,
        decreases kinds@.len() - k,
    {
        let cand = &kinds[k];
        if cand.len() == e - i && text::matches_at(s, i, cand.as_slice()) {
            assert(text::views(kinds@)[k as int] == want);
            return true;
        }
        assert(text::views(kinds@)[k as int] != want) by {
            if text::views(kinds@)[k as int] == want {
                assert(text::occurs_at(s@, cand@, i as int));
            }
        }
        k = k + 1;
    }
    false
}

impl Grammar {
    /// The ID at position `i` of `s`, if one is written there: its end and value.
    pub fn match_id_at(&self, s: &[char], i: usize) -> (r: Option<(usize, Id)>)
        requires
            i <= s@.len(),
            forall|k: int| 0 <= k < self.parts@.len() ==> (#[trigger] self.parts@[k] matches FormatPart::Lit(li) ==> li < self.format@.len()),
        ensures
            match r {
                Some((e, id)) => match_id(self@, s@, i as int) == Some((e as int, id@)),
                None => match_id(self@, s@, i as int) is None,
            },
    {
        let ghost g = self@;
        let mut cur = i;
        let mut kind: String = String::new();
        let mut num: Option<u32> = None;
        let mut slug: Option<String> = None;
        let mut k: usize = 0;
        while k < self.parts.len()
            invariant
                i <= cur <= s@.len(),
                k <= self.parts@.len(),
                g == self@,
                forall|m: int| 0 <= m < self.parts@.len() ==> (#[trigger] self.parts@[m] matches FormatPart::Lit(li) ==> li < self.format@.len()),
                match_id(g, s@, i as int) == match_parts(
                    g,
                    s@,
                    cur as int,
                    k as int,
                    model::IdV { kind: kind@, num: num, slug: model::opt_view(slug) },
                ),
            decreases self.parts@.len() - k,
        {
            let ghost acc = model::IdV { kind: kind@, num: num, slug: model::opt_view(slug) };
            match self.parts[k] {
                FormatPart::Lit(li) => {
                    assert(self.parts@[k as int] matches FormatPart::Lit(li2) && li2 == li);
                    if cur < s.len() && s[cur] == self.format[li] {
                        cur = cur + 1;
                    } else {
                        return None;
                    }
                },
                FormatPart::Kind => {
                    let e = scan_run(&CharClass::KindChar, s, cur);
                    if e > cur && is_kind_prefix(&self.kinds, s, cur, e) {
                        let kv = text::slice_range(s, cur, e);
                        kind = text::string_from_chars(kv.as_slice());
                        cur = e;
                    } else {
                        return None;
                    }
                },
                FormatPart::Number => {
                    let e = scan_run(&CharClass::Digit, s, cur);
                    if e == cur {
                        return None;
                    }
                    proof {
                        lemma_run_end(CharClass::Digit, s@, cur as int);
                    }
                    match parse_u32_digits(s, cur, e) {
                        Some(n) => {
                            num = Some(n);
                            cur = e;
                        },
                        None => {
                            return None;
                        },
                    }
                },
                FormatPart::Slug => {
                    let e = scan_slug_end(s, cur);
                    if e == cur {
                        return None;
                    }
                    let sv = text::slice_range(s, cur, e);
                    let ss = text::string_from_chars(sv.as_slice());
                    if regex_is_match(&self.slug_re, ss.as_str()) {
                        slug = Some(ss);
                        cur = e;
                    } else {
                        return None;
                    }
                },
            }
            k = k + 1;
        }
        Some((cur, Id { kind, num, slug }))
    }
}

} // verus!

verus! {

impl Grammar {
    /// Every literal part points into the format text.
    pub open spec fn wf(&self) -> bool {
        forall|k: int| 0 <= k < self.parts@.len() ==> (#[trigger] self.parts@[k] matches FormatPart::Lit(li) ==> li < self.format@.len())
    }
}

proof fn lemma_format_parts_lits(f: Seq<char>, i: int)
    ensures
        forall|k: int| 0 <= k < format_parts_from(f, i).len() ==> (#[trigger] format_parts_from(f, i)[k] matches FormatPart::Lit(li) ==> li < f.len()),
    decreases f.len() - i,
{
    if i < 0 || i >= f.len() {
    } else if text::occurs_at(f, kind_placeholder(), i) {
        lemma_format_parts_lits(f, i + 6);
    } else if text::occurs_at(f, number_placeholder(), i) {
        lemma_format_parts_lits(f, i + 8);
    } else if text::occurs_at(f, slug_placeholder(), i) {
        lemma_format_parts_lits(f, i + 6);
    } else {
        lemma_format_parts_lits(f, i + 1);
        let r = format_parts_from(f, i);
        assert forall|k: int| 0 <= k < r.len() implies (#[trigger] r[k] matches FormatPart::Lit(li) ==> li < f.len()) by {
            if k > 0 {
                assert(r[k] == format_parts_from(f, i + 1)[k - 1]);
            }
        }
    }
}

/// The slug pattern wrapped so that it has to match a whole slug.
fn anchored_pattern(p: &String) -> (r: String)
    ensures
        r@ == anchored(p@),
{
    let pv = text::chars_of(p.as_str());
    let mut out: Vec<char> = vec!['^', '(', '?', ':'];
    text::push_all(&mut out, pv.as_slice());
    out.push(')');
    out.push('$');
    assert(out@ =~= anchored(p@));
    text::string_from_chars(out.as_slice())
}

/// The kind prefixes of a configuration, as character sequences.
fn kind_chars(c: &Config) -> (r: Vec<Vec<char>>)
    ensures
        text::views(r@) == model::kind_prefix_views(c.kinds@),
{
    let mut out: Vec<Vec<char>> = Vec::new();
    let mut i: usize = 0;
    while i < c.kinds.len()
        invariant
            i <= c.kinds@.len(),
            text::views(out@) =~= model::kind_prefix_views(c.kinds@).subrange(0, i as int),
        decreases c.kinds@.len() - i,
    {
        let v = text::chars_of(c.kinds[i].prefix.as_str());
        let ghost before = out@;
        out.push(v);
        assert(text::views(out@) =~= text::views(before).push(c.kinds@[i as int].prefix@));
        i = i + 1;
    }
    out
}

impl Grammar {
    /// Compiles the ID grammar of a configuration. `None` when the regex crate
    /// rejects the anchored `[id] slug_pattern`.
    pub fn new(c: &Config) -> (r: Option<Grammar>)
        ensures
            r is Some <==> pattern::regex_valid(anchored(c.slug_pattern@)),
            r matches Some(g) ==> g@ == grammar_of(*c) && g.wf(),
    {
        let pat = anchored_pattern(&c.slug_pattern);
        let re = match pattern::regex_new(pat.as_str()) {
            Some(re) => re,
            None => {
                return None;
            },
        };
        let format = text::chars_of(c.id_format.as_str());
        let parts = parse_format(format.as_slice());
        let kinds = kind_chars(c);
        let sep = text::chars_of(c.section_separator.as_str());
        proof {
            lemma_format_parts_lits(format@, 0);
        }
        Some(Grammar { format, parts, kinds, sep, slug_re: re })
    }
}

} // verus!

verus! {

/// End of a section path `d+(<sep>d+)*` whose first digit is at `j`.
pub open spec fn sec_run_end(s: Seq<char>, sep: Seq<char>, j: int) -> int
    decreases s.len() - j,
{
    let d = run_end(CharClass::Digit, s, j);
    if 0 <= j < d && sep.len() > 0 && text::occurs_at(s, sep, d) && d + sep.len() < s.len()
        && is_digit(s[d + sep.len()]) {
        sec_run_end(s, sep, d + sep.len())
    } else {
        d
    }
}

/// A section path right after an ID ending at `e`: the end of the path.
pub open spec fn section_after(g: GrammarV, s: Seq<char>, e: int) -> Option<int> {
    if g.sep.len() > 0 && text::occurs_at(s, g.sep, e) && e + g.sep.len() < s.len() && is_digit(
        s[e + g.sep.len()],
    ) {
        Some(sec_run_end(s, g.sep, e + g.sep.len()))
    } else {
        None
    }
}

/// A word boundary after position `e - 1`.
pub open spec fn boundary_at(s: Seq<char>, e: int) -> bool {
    e >= s.len() || !is_word(s[e])
}

/// A citation-shaped token: `[<alias>/]<ID>[<sep><section>]`.
pub ghost struct TokenV {
    pub start: int,
    pub end: int,
    pub id_end: int,
    pub namespace: Option<Seq<char>>,
    pub id: model::IdV,
    pub section: Option<Seq<char>>,
}

pub open spec fn finish_token(
    g: GrammarV,
    s: Seq<char>,
    start: int,
    ns: Option<Seq<char>>,
    e: int,
    id: model::IdV,
) -> Option<TokenV> {
    match section_after(g, s, e) {
        Some(f) if boundary_at(s, f) => Some(
            TokenV {
                start,
                end: f,
                id_end: e,
                namespace: ns,
                id,
                section: Some(s.subrange(e + g.sep.len(), f)),
            },
        ),
        _ => if boundary_at(s, e) {
            Some(TokenV { start, end: e, id_end: e, namespace: ns, id, section: None })
        } else {
            None
        },
    }
}

/// The token that starts at `p`, if any: a word boundary before it, an optional
/// lowercase `alias/` namespace, an ID, an optional section, a boundary after.
pub open spec fn token_at(g: GrammarV, s: Seq<char>, p: int) -> Option<TokenV> {
    if !(0 <= p < s.len()) || (p > 0 && is_word(s[p - 1])) {
        None
    } else {
        let q = run_end(CharClass::AliasChar, s, p);
        let with_ns = if is_lower(s[p]) && q < s.len() && s[q] == '/' {
            match match_id(g, s, q + 1) {
                Some((e, id)) => finish_token(g, s, p, Some(s.subrange(p, q)), e, id),
                None => None,
            }
        } else {
            None
        };
        if with_ns is Some {
            with_ns
        } else {
            match match_id(g, s, p) {
                Some((e, id)) => finish_token(g, s, p, None, e, id),
                None => None,
            }
        }
    }
}

/// A section path is not followed by `<sep><digit>`: it runs as far as the dotted
/// digits go.
pub open spec fn path_continues(sep: Seq<char>, s: Seq<char>, f: int) -> bool {
    sep.len() > 0 && text::occurs_at(s, sep, f) && f + sep.len() < s.len() && is_digit(s[f + sep.len()])
}

/// `t` is a dotted digit path: digits, `sep`, digits, ... ending in a digit.
pub open spec fn dotted_path(t: Seq<char>, sep: Seq<char>) -> bool
    decreases t.len(),
{
    let d = run_end(CharClass::Digit, t, 0);
    &&& d > 0
    &&& (d == t.len() || (sep.len() > 0 && text::occurs_at(t, sep, d) && d + sep.len() < t.len()
        && dotted_path(t.subrange(d + sep.len(), t.len() as int), sep)))
}

proof fn lemma_run_end_shift(s: Seq<char>, j: int, f: int, i: int)
    requires
        0 <= j <= i <= f <= s.len(),
    ensures
        run_end(CharClass::Digit, s, i) <= f ==> run_end(CharClass::Digit, s.subrange(j, f), i - j) == run_end(CharClass::Digit, s, i) - j,
    decreases f - i,
{
    lemma_run_end(CharClass::Digit, s, i);
    let t = s.subrange(j, f);
    if i < f {
        assert(t[i - j] == s[i]);
        if is_digit(s[i]) {
            lemma_run_end_shift(s, j, f, i + 1);
        }
    } else if i < s.len() && is_digit(s[i]) {
        lemma_run_end(CharClass::Digit, s, i + 1);
    }
}

proof fn lemma_sec_run_end_whole(s: Seq<char>, sep: Seq<char>, j: int)
    requires
        0 <= j < s.len(),
        is_digit(s[j]),
    ensures
        j < sec_run_end(s, sep, j) <= s.len(),
        !path_continues(sep, s, sec_run_end(s, sep, j)),
        dotted_path(s.subrange(j, sec_run_end(s, sep, j)), sep),
    decreases s.len() - j,
{
    let d = run_end(CharClass::Digit, s, j);
    lemma_run_end(CharClass::Digit, s, j);
    lemma_run_end(CharClass::Digit, s, j + 1);
    assert(d > j);
    let f = sec_run_end(s, sep, j);
    if sep.len() > 0 && text::occurs_at(s, sep, d) && d + sep.len() < s.len() && is_digit(s[d + sep.len()]) {
        lemma_sec_run_end_whole(s, sep, d + sep.len());
        let t = s.subrange(j, f);
        lemma_run_end_shift(s, j, f, j);
        assert(run_end(CharClass::Digit, t, 0) == d - j);
        assert(t.subrange(d - j + sep.len(), t.len() as int) =~= s.subrange(d + sep.len(), f));
        assert(t.subrange(d - j, d - j + sep.len()) =~= s.subrange(d, d + sep.len()));
    } else {
        assert(f == d);
        let t = s.subrange(j, f);
        lemma_run_end_shift(s, j, f, j);
        assert(run_end(CharClass::Digit, t, 0) == d - j);
        if d < s.len() {
            assert(!is_digit(s[d]));
        }
        if sep.len() > 0 && text::occurs_at(s, sep, d) && d + sep.len() < s.len() {
            assert(!is_digit(s[d + sep.len()]));
        }
    }
}

/// A citation's section is the whole dotted digit path after its ID: it is a
/// `d+(<sep>d+)*` path that starts right after the ID and separator, and the
/// text after the token does not go on with `<sep><digit>` (`§X.1.1` has section
/// `1.1`, never `1`).
pub proof fn lemma_token_section_whole(g: GrammarV, s: Seq<char>, p: int)
    ensures
        token_at(g, s, p) matches Some(t) ==> (t.section matches Some(sec) ==> {
            &&& t.end <= s.len()
            &&& sec == s.subrange(t.id_end + g.sep.len(), t.end)
            &&& dotted_path(sec, g.sep)
            &&& !path_continues(g.sep, s, t.end)
        }),
{
    if let Some(t) = token_at(g, s, p) {
        if t.section is Some {
            let e = t.id_end;
            assert(section_after(g, s, e) is Some);
            lemma_sec_run_end_whole(s, g.sep, e + g.sep.len());
        }
    }
}

/// Every token of `s` from `p` on, leftmost first and non-overlapping.
pub open spec fn tokens_from(g: GrammarV, s: Seq<char>, p: int) -> Seq<TokenV>
    decreases s.len() - p,
{
    if p < 0 || p >= s.len() {
        Seq::empty()
    } else {
        match token_at(g, s, p) {
            Some(t) => if p < t.end <= s.len() {
                seq![t] + tokens_from(g, s, t.end)
            } else {
                tokens_from(g, s, p + 1)
            },
            None => tokens_from(g, s, p + 1),
        }
    }
}

pub open spec fn line_tokens(g: GrammarV, s: Seq<char>) -> Seq<TokenV> {
    tokens_from(g, s, 0)
}

/// Tokens lie in `[p, n)`, each non-empty, left to right without overlap.
pub open spec fn tokens_ordered(ts: Seq<TokenV>, p: int, n: int) -> bool {
    &&& forall|k: int| 0 <= k < ts.len() ==> p <= #[trigger] ts[k].start && ts[k].start < ts[k].end && ts[k].end <= n
    &&& forall|i: int, j: int| 0 <= i < j < ts.len() ==> #[trigger] ts[i].end <= #[trigger] ts[j].start
}

pub proof fn lemma_token_at_start(g: GrammarV, s: Seq<char>, p: int)
    ensures
        token_at(g, s, p) matches Some(t) ==> t.start == p,
{
}

pub proof fn lemma_tokens_ordered(g: GrammarV, s: Seq<char>, p: int)
    requires
        0 <= p,
    ensures
        tokens_ordered(tokens_from(g, s, p), p, s.len() as int),
    decreases s.len() - p,
{
    if p < s.len() {
        lemma_token_at_start(g, s, p);
        match token_at(g, s, p) {
            Some(t) => if p < t.end <= s.len() {
                lemma_tokens_ordered(g, s, t.end);
                let rest = tokens_from(g, s, t.end);
                let all = tokens_from(g, s, p);
                assert(all == seq![t] + rest);
                assert forall|i: int, j: int| 0 <= i < j < all.len() implies #[trigger] all[i].end <= #[trigger] all[j].start by {
                    if i > 0 {
                        assert(all[i] == rest[i - 1]);
                    }
                    assert(all[j] == rest[j - 1]);
                }
                assert forall|k: int| 0 <= k < all.len() implies p <= #[trigger] all[k].start && all[k].start < all[k].end && all[k].end <= s.len() by {
                    if k > 0 {
                        assert(all[k] == rest[k - 1]);
                    }
                }
            } else {
                lemma_tokens_ordered(g, s, p + 1);
            },
            None => {
                lemma_tokens_ordered(g, s, p + 1);
            },
        }
    }
}

/// An executable token.
pub struct Token {
    pub start: usize,
    pub end: usize,
    pub id_end: usize,
    pub namespace: Option<String>,
    pub id: Id,
    pub section: Option<String>,
}

impl View for Token {
    type V = TokenV;

    open spec fn view(&self) -> TokenV {
        TokenV {
            start: self.start as int,
            end: self.end as int,
            id_end: self.id_end as int,
            namespace: model::opt_view(self.namespace),
            id: self.id@,
            section: model::opt_view(self.section),
        }
    }
}

pub open spec fn token_views(v: Seq<Token>) -> Seq<TokenV> {
    Seq::new(v.len(), |i: int| v[i]@)
}

proof fn lemma_sec_run_end(s: Seq<char>, sep: Seq<char>, j: int)
    requires
        0 <= j <= s.len(),
    ensures
        j <= sec_run_end(s, sep, j) <= s.len(),
    decreases s.len() - j,
{
    let d = run_end(CharClass::Digit, s, j);
    lemma_run_end(CharClass::Digit, s, j);
    if 0 <= j < d && sep.len() > 0 && text::occurs_at(s, sep, d) && d + sep.len() < s.len()
        && is_digit(s[d + sep.len()]) {
        lemma_sec_run_end(s, sep, d + sep.len());
    }
}

impl Grammar {
    fn scan_sec_run_end(&self, s: &[char], j: usize) -> (r: usize)
        requires
            j <= s@.len(),
        ensures
            r as int == sec_run_end(s@, self.sep@, j as int),
            j <= r <= s@.len(),
    {
        proof {
            lemma_sec_run_end(s@, self.sep@, j as int);
        }
        let mut cur = j;
        loop
            invariant
                j <= cur <= s@.len(),
                sec_run_end(s@, self.sep@, j as int) == sec_run_end(s@, self.sep@, cur as int),
            decreases s@.len() - cur,
        {
            let d = scan_run(&CharClass::Digit, s, cur);
            if cur < d && self.sep.len() > 0 && self.sep.len() < s.len() - d && text::matches_at(
                s,
                d,
                self.sep.as_slice(),
            ) && char_is_digit(s[d + self.sep.len()]) {
                cur = d + self.sep.len();
            } else {
                return d;
            }
        }
    }

    fn finish(&self, s: &[char], start: usize, ns: Option<String>, e: usize, id: Id) -> (r:
        Option<Token>)
        requires
            start <= e <= s@.len(),
        ensures
            match r {
                Some(t) => finish_token(self@, s@, start as int, model::opt_view(ns), e as int, id@)
                    == Some(t@) && t.end <= s@.len(),
                None => finish_token(self@, s@, start as int, model::opt_view(ns), e as int, id@) is None,
            },
    {
        let sl = self.sep.len();
        if sl > 0 && sl < s.len() - e && text::matches_at(s, e, self.sep.as_slice()) && char_is_digit(
            s[e + sl],
        ) {
            let f = self.scan_sec_run_end(s, e + sl);
            if f >= s.len() || !char_is_word(s[f]) {
                let secv = text::slice_range(s, e + sl, f);
                let sec = text::string_from_chars(secv.as_slice());
                return Some(
                    Token { start, end: f, id_end: e, namespace: ns, id, section: Some(sec) },
                );
            }
        }
        if e >= s.len() || !char_is_word(s[e]) {
            Some(Token { start, end: e, id_end: e, namespace: ns, id, section: None })
        } else {
            None
        }
    }

    /// The token starting at `p`, as `token_at` defines it.
    pub fn token_at(&self, s: &[char], p: usize) -> (r: Option<Token>)
        requires
            self.wf(),
        ensures
            match r {
                Some(t) => token_at(self@, s@, p as int) == Some(t@) && t.end <= s@.len(),
                None => token_at(self@, s@, p as int) is None,
            },
    {
        if p >= s.len() || (p > 0 && char_is_word(s[p - 1])) {
            return None;
        }
        let q = scan_run(&CharClass::AliasChar, s, p);
        if 'a' <= s[p] && s[p] <= 'z' && q < s.len() && s[q] == '/' {
            match self.match_id_at(s, q + 1) {
                Some((e, id)) => {
                    proof {
                        lemma_match_parts_end(self@, s@, (q + 1) as int, 0, empty_id());
                    }
                    let nsv = text::slice_range(s, p, q);
                    let ns = text::string_from_chars(nsv.as_slice());
                    match self.finish(s, p, Some(ns), e, id) {
                        Some(t) => {
                            return Some(t);
                        },
                        None => {},
                    }
                },
                None => {},
            }
        }
        match self.match_id_at(s, p) {
            Some((e, id)) => {
                proof {
                    lemma_match_parts_end(self@, s@, p as int, 0, empty_id());
                }
                self.finish(s, p, None, e, id)
            },
            None => None,
        }
    }

    /// Every citation-shaped token of a line, left to right.
    pub fn line_tokens(&self, s: &[char]) -> (r: Vec<Token>)
        requires
            self.wf(),
        ensures
            token_views(r@) == line_tokens(self@, s@),
            forall|k: int| 0 <= k < r@.len() ==> #[trigger] r@[k].end <= s@.len() && r@[k].start < r@[k].end,
    {
        let mut out: Vec<Token> = Vec::new();
        let mut p: usize = 0;
        while p < s.len()
            invariant
                p <= s@.len(),
                self.wf(),
                token_views(out@) + tokens_from(self@, s@, p as int) == line_tokens(self@, s@),
                forall|k: int| 0 <= k < out@.len() ==> #[trigger] out@[k].end <= s@.len() && out@[k].start < out@[k].end,
            decreases s@.len() - p,
        {
            let ghost before = out@;
            let ghost p0 = p as int;
            match self.token_at(s, p) {
                Some(t) => {
                    assert(t.start == p);
                    if p < t.end {
                        let e = t.end;
                        out.push(t);
                        assert(token_views(out@) =~= token_views(before).push(out@.last()@));
                        assert(tokens_from(self@, s@, p0) == seq![out@.last()@] + tokens_from(
                            self@,
                            s@,
                            e as int,
                        ));
                        assert(token_views(out@) + tokens_from(self@, s@, e as int)
                            =~= token_views(before) + tokens_from(self@, s@, p0));
                        p = e;
                    } else {
                        p = p + 1;
                    }
                },
                None => {
                    p = p + 1;
                },
            }
        }
        assert(token_views(out@) =~= token_views(out@) + tokens_from(self@, s@, p as int));
        out
    }
}

} // verus!

verus! {

/// A declaration heading: where its ID ends, the ID, and the heading depth.
pub ghost struct DeclMatch {
    pub id_end: int,
    pub id: model::IdV,
    pub level: int,
}

pub open spec fn decl_end_ok(s: Seq<char>, e: int) -> bool {
    e >= s.len() || s[e] == ':' || text::is_ws(s[e])
}

/// After position `j`: `#+ <ID>` (then end, `:` or whitespace); in code mode also
/// the hash-less form `<ID>:`.
pub open spec fn decl_body(g: GrammarV, s: Seq<char>, j: int, code_mode: bool) -> Option<DeclMatch> {
    let h = run_end(CharClass::Hash, s, j);
    if h > j {
        let w = text::skip_ws(s, h);
        if w > h {
            match match_id(g, s, w) {
                Some((e, id)) => if decl_end_ok(s, e) {
                    Some(DeclMatch { id_end: e, id, level: h - j })
                } else {
                    None
                },
                None => None,
            }
        } else {
            None
        }
    } else if code_mode {
        match match_id(g, s, j) {
            Some((e, id)) => if e < s.len() && s[e] == ':' {
                Some(DeclMatch { id_end: e, id, level: 1 })
            } else {
                None
            },
            None => None,
        }
    } else {
        None
    }
}

/// In a source line: the first configured comment prefix (from `k` on) after
/// which a declaration follows.
pub open spec fn decl_code(g: GrammarV, s: Seq<char>, prefixes: Seq<Seq<char>>, k: int) -> Option<DeclMatch>
    decreases prefixes.len() - k,
{
    if k < 0 || k >= prefixes.len() {
        None
    } else {
        let pf = prefixes[k];
        let i0 = text::skip_ws(s, 0);
        if pf.len() > 0 && text::occurs_at(s, pf, i0) {
            match decl_body(g, s, text::skip_ws(s, i0 + pf.len()), true) {
                Some(m) => Some(m),
                None => decl_code(g, s, prefixes, k + 1),
            }
        } else {
            decl_code(g, s, prefixes, k + 1)
        }
    }
}

/// The declaration heading on a line: a Markdown heading in Markdown mode (a
/// Markdown file or a Python docstring), a commented heading in source code.
pub open spec fn declaration_at(g: GrammarV, s: Seq<char>, prefixes: Seq<Seq<char>>, md_mode: bool) -> Option<DeclMatch> {
    if md_mode {
        decl_body(g, s, text::skip_ws(s, 0), false)
    } else {
        decl_code(g, s, prefixes, 0)
    }
}

/// After position `j`: `#+ <section>` with an optional trailing separator, then
/// whitespace or the end of the line.
pub open spec fn section_body(g: GrammarV, s: Seq<char>, j: int) -> Option<(Seq<char>, int)> {
    let h = run_end(CharClass::Hash, s, j);
    let w = text::skip_ws(s, h);
    if h > j && w > h && w < s.len() && is_digit(s[w]) {
        let f = sec_run_end(s, g.sep, w);
        let a = if g.sep.len() > 0 && text::occurs_at(s, g.sep, f) {
            f + g.sep.len()
        } else {
            f
        };
        if a >= s.len() || text::is_ws(s[a]) {
            Some((s.subrange(w, f), h - j))
        } else {
            None
        }
    } else {
        None
    }
}

pub open spec fn section_code(g: GrammarV, s: Seq<char>, prefixes: Seq<Seq<char>>, k: int) -> Option<(Seq<char>, int)>
    decreases prefixes.len() - k,
{
    if k < 0 || k >= prefixes.len() {
        None
    } else {
        let pf = prefixes[k];
        let i0 = text::skip_ws(s, 0);
        if pf.len() > 0 && text::occurs_at(s, pf, i0) {
            match section_body(g, s, text::skip_ws(s, i0 + pf.len())) {
                Some(m) => Some(m),
                None => section_code(g, s, prefixes, k + 1),
            }
        } else {
            section_code(g, s, prefixes, k + 1)
        }
    }
}

/// The numbered section heading on a line: its section path and heading depth.
pub open spec fn section_heading_at(g: GrammarV, s: Seq<char>, prefixes: Seq<Seq<char>>, md_mode: bool) -> Option<(Seq<char>, int)> {
    let j = text::skip_ws(s, 0);
    if md_mode {
        section_body(g, s, j)
    } else {
        match section_body(g, s, j) {
            Some(m) => Some(m),
            None => section_code(g, s, prefixes, 0),
        }
    }
}

pub struct DeclHit {
    pub id_end: usize,
    pub id: Id,
    pub level: usize,
}

pub open spec fn decl_hit_view(h: DeclHit) -> DeclMatch {
    DeclMatch { id_end: h.id_end as int, id: h.id@, level: h.level as int }
}

impl Grammar {
    fn decl_body_at(&self, s: &[char], j: usize, code_mode: bool) -> (r: Option<DeclHit>)
        requires
            self.wf(),
            j <= s@.len(),
        ensures
            match r {
                Some(h) => decl_body(self@, s@, j as int, code_mode) == Some(decl_hit_view(h))
                    && h.id_end <= s@.len(),
                None => decl_body(self@, s@, j as int, code_mode) is None,
            },
    {
        let h = scan_run(&CharClass::Hash, s, j);
        if h > j {
            let w = text::skip_whitespace(s, h);
            if w > h {
                match self.match_id_at(s, w) {
                    Some((e, id)) => {
                        proof {
                            lemma_match_parts_end(self@, s@, w as int, 0, empty_id());
                        }
                        if e >= s.len() || s[e] == ':' || text::is_whitespace(s[e]) {
                            Some(DeclHit { id_end: e, id, level: h - j })
                        } else {
                            None
                        }
                    },
                    None => None,
                }
            } else {
                None
            }
        } else if code_mode {
            match self.match_id_at(s, j) {
                Some((e, id)) => {
                    proof {
                        lemma_match_parts_end(self@, s@, j as int, 0, empty_id());
                    }
                    if e < s.len() && s[e] == ':' {
                        Some(DeclHit { id_end: e, id, level: 1 })
                    } else {
                        None
                    }
                },
                None => None,
            }
        } else {
            None
        }
    }

    /// The declaration heading on a line, as `declaration_at` defines it.
    pub fn declaration_at(&self, s: &[char], prefixes: &Vec<Vec<char>>, md_mode: bool) -> (r:
        Option<DeclHit>)
        requires
            self.wf(),
        ensures
            match r {
                Some(h) => declaration_at(self@, s@, text::views(prefixes@), md_mode) == Some(
                    decl_hit_view(h),
                ) && h.id_end <= s@.len(),
                None => declaration_at(self@, s@, text::views(prefixes@), md_mode) is None,
            },
    {
        let i0 = text::skip_whitespace(s, 0);
        if md_mode {
            return self.decl_body_at(s, i0, false);
        }
        let n = s.len();
        let mut k: usize = 0;
        while k < prefixes.len()
            invariant
                k <= prefixes@.len(),
                n == s@.len(),
                !md_mode,
                self.wf(),
                i0 == text::skip_ws(s@, 0),
                i0 <= s@.len(),
                decl_code(self@, s@, text::views(prefixes@), 0) == decl_code(
                    self@,
                    s@,
                    text::views(prefixes@),
                    k as int,
                ),
            decreases prefixes@.len() - k,
        {
            let pf = &prefixes[k];
            assert(text::views(prefixes@)[k as int] == pf@);
            if pf.len() > 0 && text::matches_at(s, i0, pf.as_slice()) {
                let j = text::skip_whitespace(s, i0 + pf.len());
                match self.decl_body_at(s, j, true) {
                    Some(h) => {
                        return Some(h);
                    },
                    None => {},
                }
            }
            k = k + 1;
        }
        None
    }

    fn section_body_at(&self, s: &[char], j: usize) -> (r: Option<(Vec<char>, usize)>)
        requires
            j <= s@.len(),
        ensures
            match r {
                Some((sec, lvl)) => section_body(self@, s@, j as int) == Some((sec@, lvl as int)),
                None => section_body(self@, s@, j as int) is None,
            },
    {
        let h = scan_run(&CharClass::Hash, s, j);
        let w = text::skip_whitespace(s, h);
        if h > j && w > h && w < s.len() && char_is_digit(s[w]) {
            let f = self.scan_sec_run_end(s, w);
            let sl = self.sep.len();
            let a = if sl > 0 && text::matches_at(s, f, self.sep.as_slice()) {
                f + sl
            } else {
                f
            };
            if a >= s.len() || text::is_whitespace(s[a]) {
                Some((text::slice_range(s, w, f), h - j))
            } else {
                None
            }
        } else {
            None
        }
    }

    /// The numbered section heading on a line, as `section_heading_at` defines it.
    pub fn section_heading_at(&self, s: &[char], prefixes: &Vec<Vec<char>>, md_mode: bool) -> (r:
        Option<(Vec<char>, usize)>)
        ensures
            match r {
                Some((sec, lvl)) => section_heading_at(self@, s@, text::views(prefixes@), md_mode)
                    == Some((sec@, lvl as int)),
                None => section_heading_at(self@, s@, text::views(prefixes@), md_mode) is None,
            },
    {
        let j = text::skip_whitespace(s, 0);
        let first = self.section_body_at(s, j);
        if md_mode || first.is_some() {
            return first;
        }
        let n = s.len();
        let mut k: usize = 0;
        while k < prefixes.len()
            invariant
                k <= prefixes@.len(),
                n == s@.len(),
                !md_mode,
                section_body(self@, s@, j as int) is None,
                j == text::skip_ws(s@, 0),
                j <= s@.len(),
                section_code(self@, s@, text::views(prefixes@), 0) == section_code(
                    self@,
                    s@,
                    text::views(prefixes@),
                    k as int,
                ),
            decreases prefixes@.len() - k,
        {
            let pf = &prefixes[k];
            assert(text::views(prefixes@)[k as int] == pf@);
            if pf.len() > 0 && text::matches_at(s, j, pf.as_slice()) {
                let j2 = text::skip_whitespace(s, j + pf.len());
                match self.section_body_at(s, j2) {
                    Some(m) => {
                        return Some(m);
                    },
                    None => {},
                }
            }
            k = k + 1;
        }
        None
    }
}

} // verus!

verus! {

/// `{number}` renders zero-padded to three digits (`014`).
pub open spec fn render_number(n: Option<u32>) -> Seq<char> {
    match n {
        Some(v) => text::zero_pad(text::decimal(v as nat), 3),
        None => Seq::empty(),
    }
}

/// An ID rendered per `[id] format`, parts `k..`.
pub open spec fn render_parts(g: GrammarV, id: model::IdV, k: int) -> Seq<char>
    decreases g.parts.len() - k,
{
    if k < 0 || k >= g.parts.len() {
        Seq::empty()
    } else {
        let head = match g.parts[k] {
            FormatPart::Lit(li) => seq![g.format[li as int]],
            FormatPart::Kind => id.kind,
            FormatPart::Number => render_number(id.num),
            FormatPart::Slug => match id.slug {
                Some(s) => s,
                None => Seq::empty(),
            },
        };
        head + render_parts(g, id, k + 1)
    }
}

pub open spec fn render_id(g: GrammarV, id: model::IdV) -> Seq<char> {
    render_parts(g, id, 0)
}

/// `<ID>[<sep><section>]` as a whole argument (`grund show FS-x.2`).
pub open spec fn parse_id_arg(g: GrammarV, raw: Seq<char>) -> Option<(model::IdV, Option<Seq<char>>)> {
    match match_id(g, raw, 0) {
        Some((e, id)) => if e == raw.len() {
            Some((id, None))
        } else {
            match section_after(g, raw, e) {
                Some(f) => if f == raw.len() {
                    Some((id, Some(raw.subrange(e + g.sep.len(), f))))
                } else {
                    None
                },
                None => None,
            }
        },
        None => None,
    }
}

impl Grammar {
    /// Renders an ID per `[id] format`.
    pub fn render_id(&self, id: &Id) -> (r: Vec<char>)
        requires
            self.wf(),
        ensures
            r@ == render_id(self@, id@),
    {
        let mut out: Vec<char> = Vec::new();
        let mut k: usize = 0;
        let kind = text::chars_of(id.kind.as_str());
        while k < self.parts.len()
            invariant
                k <= self.parts@.len(),
                self.wf(),
                kind@ == id.kind@,
                out@ + render_parts(self@, id@, k as int) == render_id(self@, id@),
            decreases self.parts@.len() - k,
        {
            let ghost before = out@;
            match self.parts[k] {
                FormatPart::Lit(li) => {
                    out.push(self.format[li]);
                },
                FormatPart::Kind => {
                    text::push_all(&mut out, kind.as_slice());
                },
                FormatPart::Number => {
                    match id.num {
                        Some(v) => {
                            let d = text::decimal_chars(v as usize);
                            let p = text::zero_padded(d, 3);
                            text::push_all(&mut out, p.as_slice());
                        },
                        None => {},
                    }
                },
                FormatPart::Slug => {
                    match &id.slug {
                        Some(sl) => {
                            let v = text::chars_of(sl.as_str());
                            text::push_all(&mut out, v.as_slice());
                        },
                        None => {},
                    }
                },
            }
            assert(out@ + render_parts(self@, id@, k + 1) =~= before + render_parts(
                self@,
                id@,
                k as int,
            ));
            k = k + 1;
        }
        assert(out@ =~= out@ + render_parts(self@, id@, k as int));
        out
    }

    /// Parses a whole `<ID>[<sep><section>]` argument.
    pub fn parse_id_arg(&self, raw: &[char]) -> (r: Option<(Id, Option<String>)>)
        requires
            self.wf(),
        ensures
            match r {
                Some((id, sec)) => parse_id_arg(self@, raw@) == Some((id@, model::opt_view(sec))),
                None => parse_id_arg(self@, raw@) is None,
            },
    {
        match self.match_id_at(raw, 0) {
            Some((e, id)) => {
                proof {
                    lemma_match_parts_end(self@, raw@, 0, 0, empty_id());
                }
                if e == raw.len() {
                    return Some((id, None));
                }
                let sl = self.sep.len();
                if sl > 0 && sl < raw.len() - e && text::matches_at(raw, e, self.sep.as_slice())
                    && char_is_digit(raw[e + sl]) {
                    let f = self.scan_sec_run_end(raw, e + sl);
                    if f == raw.len() {
                        let sv = text::slice_range(raw, e + sl, f);
                        return Some((id, Some(text::string_from_chars(sv.as_slice()))));
                    }
                }
                None
            },
            None => None,
        }
    }
}

/// The path of a stub heading's tail `: [text](path)`.
pub open spec fn stub_link(t: Seq<char>) -> Option<Seq<char>> {
    let i = text::skip_ws(t, 0);
    if i < t.len() && t[i] == ':' {
        let j = text::skip_ws(t, i + 1);
        if j < t.len() && t[j] == '[' {
            match text::find_from(t, seq![']'], j + 1) {
                Some(k) => if k + 1 < t.len() && t[k + 1] == '(' {
                    match text::find_from(t, seq![')'], k + 2) {
                        Some(m) => if m > k + 2 && text::skip_ws(t, m + 1) == t.len() {
                            Some(t.subrange(k + 2, m))
                        } else {
                            None
                        },
                        None => None,
                    }
                } else {
                    None
                },
                None => None,
            }
        } else {
            None
        }
    } else {
        None
    }
}

/// The title after a declaration's ID: `tail` without leading whitespace, one
/// leading `:`, and surrounding whitespace; `None` when nothing is left.
pub open spec fn decl_title(tail: Seq<char>) -> Option<Seq<char>> {
    let t = text::trim_start(tail);
    let u = if t.len() > 0 && t[0] == ':' {
        t.subrange(1, t.len() as int)
    } else {
        t
    };
    let v = text::trim(u);
    if v.len() > 0 {
        Some(v)
    } else {
        None
    }
}

} // verus!

verus! {

/// The link path of a stub heading's tail, as `stub_link` defines it.
pub fn stub_link_path(t: &[char]) -> (r: Option<Vec<char>>)
    ensures
        match r {
            Some(p) => stub_link(t@) == Some(p@),
            None => stub_link(t@) is None,
        },
{
    let i = text::skip_whitespace(t, 0);
    if i < t.len() && t[i] == ':' {
        let j = text::skip_whitespace(t, i + 1);
        if j < t.len() && t[j] == '[' {
            match text::find_char(t, ']', j + 1) {
                Some(k) => {
                    proof {
                        text::lemma_find_from_bounds(t@, seq![']'], j + 1);
                    }
                    if k + 1 < t.len() && t[k + 1] == '(' {
                        match text::find_char(t, ')', k + 2) {
                            Some(m) => {
                                proof {
                                    text::lemma_find_from_bounds(t@, seq![')'], k + 2);
                                }
                                if m > k + 2 && text::skip_whitespace(t, m + 1) == t.len() {
                                    return Some(text::slice_range(t, k + 2, m));
                                }
                                None
                            },
                            None => None,
                        }
                    } else {
                        None
                    }
                },
                None => None,
            }
        } else {
            None
        }
    } else {
        None
    }
}

/// The declaration title in a heading's tail, as `decl_title` defines it.
pub fn declaration_title(tail: &[char]) -> (r: Option<Vec<char>>)
    ensures
        match r {
            Some(v) => decl_title(tail@) == Some(v@),
            None => decl_title(tail@) is None,
        },
{
    let a = text::skip_whitespace(tail, 0);
    let t = text::slice_range(tail, a, tail.len());
    let u = if t.len() > 0 && t[0] == ':' {
        text::slice_range(t.as_slice(), 1, t.len())
    } else {
        t
    };
    let b = text::skip_whitespace(u.as_slice(), 0);
    let w = text::slice_range(u.as_slice(), b, u.len());
    let e = text::trim_end_index(w.as_slice(), w.len());
    let v = text::slice_range(w.as_slice(), 0, e);
    if v.len() > 0 {
        Some(v)
    } else {
        None
    }
}

} // verus!
