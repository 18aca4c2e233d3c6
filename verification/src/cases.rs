//! An e2e case directory's manifest: `command.args` (whitespace-separated words,
//! `check` when the file is absent), `expected.exit` (a decimal `i32`, surrounding
//! whitespace allowed) and the case's fixture files, listed in order.
use vstd::prelude::*;
use crate::model::{self, E2eCase};
use crate::order;
use crate::text::{self, chars_of, string_from_chars};

verus! {

// ---------------------------------------------------------------- words

/// The whitespace-separated words of `s`, in order.
pub open spec fn words(s: Seq<char>) -> Seq<Seq<char>>
    decreases s.len(),
{
    if s.len() == 0 {
        Seq::empty()
    } else {
        let w = words(s.drop_last());
        let c = s.last();
        if text::is_ws(c) {
            w
        } else if s.len() >= 2 && !text::is_ws(s[s.len() - 2]) && w.len() > 0 {
            w.drop_last().push(w.last().push(c))
        } else {
            w.push(seq![c])
        }
    }
}

pub fn split_words(s: &[char]) -> (r: Vec<Vec<char>>)
    ensures
        text::views(r@) == words(s@),
{
    let mut out: Vec<Vec<char>> = Vec::new();
    let mut i: usize = 0;
    while i < s.len()
        invariant
            i <= s@.len(),
            text::views(out@) == words(s@.subrange(0, i as int)),
        decreases s@.len() - i,
    {
        let c = s[i];
        let ghost pre = s@.subrange(0, i as int);
        let ghost next = s@.subrange(0, i + 1);
        assert(next.drop_last() =~= pre);
        assert(next.last() == c);
        if text::is_whitespace(c) {
        } else if i >= 1 && !text::is_whitespace(s[i - 1]) && out.len() > 0 {
            assert(next[next.len() - 2] == s@[i - 1]);
            let ghost before = text::views(out@);
            let last = out.len() - 1;
            let mut w = out.remove(last);
            w.push(c);
            out.push(w);
            assert(text::views(out@) =~= before.drop_last().push(before.last().push(c)));
        } else {
            proof {
                if i >= 1 {
                    assert(next[next.len() - 2] == s@[i - 1]);
                }
            }
            let ghost before = text::views(out@);
            let w = vec![c];
            assert(w@ =~= seq![c]);
            out.push(w);
            assert(text::views(out@) =~= before.push(seq![c]));
        }
        i = i + 1;
    }
    assert(s@.subrange(0, s@.len() as int) =~= s@);
    out
}

// ---------------------------------------------------------------- i32

/// Why a text is no `i32`, as Rust's integer parser says it.
#[derive(Clone, Copy, PartialEq, Eq, Structural, Debug)]
pub enum IntError {
    Empty,
    InvalidDigit,
    PosOverflow,
    NegOverflow,
}

pub open spec fn int_error_text(e: IntError) -> Seq<char> {
    match e {
        IntError::Empty => "cannot parse integer from empty string"@,
        IntError::InvalidDigit => "invalid digit found in string"@,
        IntError::PosOverflow => "number too large to fit in target type"@,
        IntError::NegOverflow => "number too small to fit in target type"@,
    }
}

/// The digits of `t` from `i` on, read into `v` (subtracted when `neg`), left to
/// right; the first bad digit or out-of-range value is the error.
pub open spec fn read_digits(t: Seq<char>, neg: bool, i: int, v: int) -> Result<int, IntError>
    decreases t.len() - i,
{
    if i < 0 || i >= t.len() {
        Ok(v)
    } else if !('0' <= t[i] && t[i] <= '9') {
        Err(IntError::InvalidDigit)
    } else {
        let d = t[i] as int - '0' as int;
        let nv = if neg {
            v * 10 - d
        } else {
            v * 10 + d
        };
        if nv > 0x7fff_ffff {
            Err(IntError::PosOverflow)
        } else if nv < -0x8000_0000 {
            Err(IntError::NegOverflow)
        } else {
            read_digits(t, neg, i + 1, nv)
        }
    }
}

/// An optional sign, then decimal digits, as an `i32`.
pub open spec fn parse_i32(t: Seq<char>) -> Result<int, IntError> {
    if t.len() == 0 {
        Err(IntError::Empty)
    } else if t[0] == '-' || t[0] == '+' {
        if t.len() == 1 {
            Err(IntError::InvalidDigit)
        } else {
            read_digits(t, t[0] == '-', 1, 0)
        }
    } else {
        read_digits(t, false, 0, 0)
    }
}

proof fn lemma_read_digits_range(t: Seq<char>, neg: bool, i: int, v: int)
    requires
        -0x8000_0000 <= v <= 0x7fff_ffff,
    ensures
        read_digits(t, neg, i, v) matches Ok(x) ==> -0x8000_0000 <= x <= 0x7fff_ffff,
    decreases t.len() - i,
{
    if 0 <= i < t.len() && '0' <= t[i] && t[i] <= '9' {
        let d = t[i] as int - '0' as int;
        let nv = if neg {
            v * 10 - d
        } else {
            v * 10 + d
        };
        if -0x8000_0000 <= nv <= 0x7fff_ffff {
            lemma_read_digits_range(t, neg, i + 1, nv);
        }
    }
}

/// Parses an `i32` as `parse_i32` defines it.
pub fn parse_i32_exec(t: &[char]) -> (r: Result<i32, IntError>)
    ensures
        match r {
            Ok(x) => parse_i32(t@) == Ok::<int, IntError>(x as int),
            Err(e) => parse_i32(t@) == Err::<int, IntError>(e),
        },
{
    if t.len() == 0 {
        return Err(IntError::Empty);
    }
    let signed = t[0] == '-' || t[0] == '+';
    if signed && t.len() == 1 {
        return Err(IntError::InvalidDigit);
    }
    let neg = t[0] == '-';
    let mut i: usize = if signed {
        1
    } else {
        0
    };
    let ghost start = i as int;
    let mut v: i64 = 0;
    proof {
        lemma_read_digits_range(t@, neg, start, 0);
    }
    while i < t.len()
        invariant
            i <= t@.len(),
            -0x8000_0000 <= v <= 0x7fff_ffff,
            parse_i32(t@) == read_digits(t@, neg, i as int, v as int),
        decreases t@.len() - i,
    {
        let c = t[i];
        if !('0' <= c && c <= '9') {
            return Err(IntError::InvalidDigit);
        }
        let d = (c as u32 - '0' as u32) as i64;
        assert(d == c as int - '0' as int);
        let nv = if neg {
            v * 10 - d
        } else {
            v * 10 + d
        };
        if nv > 0x7fff_ffff {
            return Err(IntError::PosOverflow);
        }
        if nv < -0x8000_0000 {
            return Err(IntError::NegOverflow);
        }
        v = nv;
        i = i + 1;
    }
    Ok(v as i32)
}

// ---------------------------------------------------------------- the manifest

pub open spec fn default_args() -> Seq<Seq<char>> {
    seq!["check"@]
}

/// A case's command words: those of `command.args`, or `check` without that file.
pub open spec fn case_args(args_text: Option<Seq<char>>) -> Seq<Seq<char>> {
    match args_text {
        Some(t) => words(t),
        None => default_args(),
    }
}

pub open spec fn exit_parse_message(dir: Seq<char>, e: IntError) -> Seq<char> {
    "parse "@ + dir + "/expected.exit: "@ + int_error_text(e)
}

/// A case read from its directory `dir`: the text of `command.args` (when the file
/// exists), the text of `expected.exit`, and the case's fixture paths. The
/// fixtures come out in ascending order, each once; an unreadable exit status is
/// an error.
pub fn read_e2e_case(dir: &str, args_text: Option<&str>, exit_text: &str, fixtures: &Vec<String>) -> (r: Result<E2eCase, String>)
    ensures
        match (r, parse_i32(text::trim(exit_text@))) {
            (Ok(c), Ok(x)) => {
                &&& c.dir@ == dir@
                &&& model::str_views(c.args@) == case_args(match args_text {
                    Some(t) => Some(t@),
                    None => None,
                })
                &&& c.expected_exit as int == x
                &&& order::strictly_sorted(model::str_views(c.fixtures@))
                &&& model::str_views(c.fixtures@).to_set() == model::str_views(fixtures@).to_set()
            },
            (Err(m), Err(e)) => m@ == exit_parse_message(dir@, e),
            _ => false,
        },
{
    let ev = chars_of(exit_text);
    let et = crate::scanner::trim_chars(ev.as_slice());
    let x = match parse_i32_exec(et.as_slice()) {
        Ok(x) => x,
        Err(e) => {
            let mut m = String::from_str("parse ");
            m.append(dir);
            m.append("/expected.exit: ");
            m.append(
                match e {
                    IntError::Empty => "cannot parse integer from empty string",
                    IntError::InvalidDigit => "invalid digit found in string",
                    IntError::PosOverflow => "number too large to fit in target type",
                    IntError::NegOverflow => "number too small to fit in target type",
                },
            );
            return Err(m);
        },
    };
    let words_v: Vec<Vec<char>> = match args_text {
        Some(t) => {
            let tv = chars_of(t);
            split_words(tv.as_slice())
        },
        None => {
            let w = vec![chars_of("check")];
            assert(text::views(w@) =~= default_args());
            w
        },
    };
    let mut args: Vec<String> = Vec::new();
    let mut i: usize = 0;
    while i < words_v.len()
        invariant
            i <= words_v@.len(),
            model::str_views(args@) =~= text::views(words_v@).subrange(0, i as int),
        decreases words_v@.len() - i,
    {
        let ghost before = args@;
        args.push(string_from_chars(words_v[i].as_slice()));
        assert(model::str_views(args@) =~= model::str_views(before).push(words_v@[i as int]@));
        assert(text::views(words_v@).subrange(0, i + 1) =~= text::views(words_v@).subrange(0, i as int).push(
            words_v@[i as int]@,
        ));
        i = i + 1;
    }
    assert(model::str_views(args@) =~= text::views(words_v@));
    let ghost fv = model::str_views(fixtures@);
    let mut sorted: Vec<Vec<char>> = Vec::new();
    let mut k: usize = 0;
    while k < fixtures.len()
        invariant
            k <= fixtures@.len(),
            fv == model::str_views(fixtures@),
            order::strictly_sorted(text::views(sorted@)),
            text::views(sorted@).to_set() == fv.subrange(0, k as int).to_set(),
        decreases fixtures@.len() - k,
    {
        let ghost before = text::views(sorted@).to_set();
        order::insert_sorted(&mut sorted, chars_of(fixtures[k].as_str()));
        assert(fv.subrange(0, k + 1).to_set() =~= fv.subrange(0, k as int).to_set().insert(fv[k as int])) by {
            assert(fv.subrange(0, k + 1) =~= fv.subrange(0, k as int).push(fv[k as int]));
            let nx = fv.subrange(0, k + 1);
            let pr = fv.subrange(0, k as int);
            assert forall|y: Seq<char>| nx.to_set().contains(y) <==> pr.to_set().insert(fv[k as int]).contains(y) by {
                if nx.contains(y) && y != fv[k as int] {
                    let t = choose|t: int| 0 <= t < nx.len() && #[trigger] nx[t] == y;
                    assert(pr[t] == y);
                }
                if pr.contains(y) {
                    let t = choose|t: int| 0 <= t < pr.len() && #[trigger] pr[t] == y;
                    assert(nx[t] == y);
                }
                if y == fv[k as int] {
                    assert(nx[k as int] == y);
                }
            }
        }
        k = k + 1;
    }
    assert(fv.subrange(0, fixtures@.len() as int) =~= fv);
    let mut fixture_list: Vec<String> = Vec::new();
    let mut i: usize = 0;
    while i < sorted.len()
        invariant
            i <= sorted@.len(),
            model::str_views(fixture_list@) =~= text::views(sorted@).subrange(0, i as int),
        decreases sorted@.len() - i,
    {
        let ghost before = fixture_list@;
        fixture_list.push(string_from_chars(sorted[i].as_slice()));
        assert(model::str_views(fixture_list@) =~= model::str_views(before).push(sorted@[i as int]@));
        assert(text::views(sorted@).subrange(0, i + 1) =~= text::views(sorted@).subrange(0, i as int).push(
            sorted@[i as int]@,
        ));
        i = i + 1;
    }
    assert(model::str_views(fixture_list@) =~= text::views(sorted@));
    Ok(E2eCase { dir: String::from_str(dir), args, expected_exit: x, fixtures: fixture_list })
}

} // verus!
