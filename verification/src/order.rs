//! The one fixed order in which diagnostics (and the sites inside a duplicate
//! diagnostic) are reported: by path (no path first), then line, then text, with
//! ties kept in the order they were produced.
use vstd::prelude::*;
use crate::text;

verus! {

/// `a` and `b` agree on their first `i` characters.
pub open spec fn common_prefix(a: Seq<char>, b: Seq<char>, i: int) -> bool {
    &&& 0 <= i <= a.len()
    &&& i <= b.len()
    &&& forall|k: int| 0 <= k < i ==> a[k] == b[k]
}

/// `a` and `b` first differ at `i`, and there `a` is the smaller one.
pub open spec fn lt_at(a: Seq<char>, b: Seq<char>, i: int) -> bool {
    &&& common_prefix(a, b, i)
    &&& i < b.len()
    &&& (i == a.len() || (i < a.len() && a[i] < b[i]))
}

/// Lexicographic order of character sequences (code point by code point, a
/// proper prefix first), the order of Rust's `str`.
pub open spec fn chars_lt(a: Seq<char>, b: Seq<char>) -> bool {
    exists|i: int| #[trigger] lt_at(a, b, i)
}

pub proof fn lemma_chars_lt_irreflexive(a: Seq<char>)
    ensures
        !chars_lt(a, a),
{
}

pub proof fn lemma_chars_lt_asymmetric(a: Seq<char>, b: Seq<char>)
    requires
        chars_lt(a, b),
    ensures
        !chars_lt(b, a),
{
    let i = choose|i: int| lt_at(a, b, i);
    if chars_lt(b, a) {
        let j = choose|j: int| lt_at(b, a, j);
        if i < j {
            assert(a[i] == b[i]);
        } else if j < i {
            assert(a[j] == b[j]);
        }
    }
}

pub proof fn lemma_chars_lt_transitive(a: Seq<char>, b: Seq<char>, c: Seq<char>)
    requires
        chars_lt(a, b),
        chars_lt(b, c),
    ensures
        chars_lt(a, c),
{
    let i = choose|i: int| lt_at(a, b, i);
    let j = choose|j: int| lt_at(b, c, j);
    if i < j {
        assert(b[i] == c[i]);
        assert(lt_at(a, c, i));
    } else if j < i {
        assert(a[j] == b[j]);
        assert(lt_at(a, c, j));
    } else {
        assert(lt_at(a, c, i));
    }
}

proof fn lemma_chars_total_from(a: Seq<char>, b: Seq<char>, i: int)
    requires
        common_prefix(a, b, i),
        a != b,
    ensures
        chars_lt(a, b) || chars_lt(b, a),
    decreases a.len() - i,
{
    if i == a.len() && i == b.len() {
        assert(a =~= b);
    } else if i == a.len() {
        assert(lt_at(a, b, i));
    } else if i == b.len() {
        assert(lt_at(b, a, i));
    } else if a[i] != b[i] {
        if a[i] < b[i] {
            assert(lt_at(a, b, i));
        } else {
            assert(lt_at(b, a, i));
        }
    } else {
        lemma_chars_total_from(a, b, i + 1);
    }
}

pub proof fn lemma_chars_lt_total(a: Seq<char>, b: Seq<char>)
    requires
        a != b,
    ensures
        chars_lt(a, b) || chars_lt(b, a),
{
    lemma_chars_total_from(a, b, 0);
}

/// What a reported item is ordered by: its path (absent first), its line, its
/// column, its text.
pub ghost struct KeyV {
    pub path: Option<Seq<char>>,
    pub line: int,
    pub col: int,
    pub text: Seq<char>,
}

pub open spec fn opt_lt(a: Option<Seq<char>>, b: Option<Seq<char>>) -> bool {
    match (a, b) {
        (None, Some(_)) => true,
        (Some(x), Some(y)) => chars_lt(x, y),
        _ => false,
    }
}

/// Strict order on keys: path, then line, then column, then text.
pub open spec fn key_lt(x: KeyV, y: KeyV) -> bool {
    ||| opt_lt(x.path, y.path)
    ||| (x.path == y.path && x.line < y.line)
    ||| (x.path == y.path && x.line == y.line && x.col < y.col)
    ||| (x.path == y.path && x.line == y.line && x.col == y.col && chars_lt(x.text, y.text))
}

proof fn lemma_opt_lt_facts(a: Option<Seq<char>>, b: Option<Seq<char>>, c: Option<Seq<char>>)
    ensures
        !opt_lt(a, a),
        opt_lt(a, b) ==> !opt_lt(b, a),
        opt_lt(a, b) && opt_lt(b, c) ==> opt_lt(a, c),
        a != b ==> opt_lt(a, b) || opt_lt(b, a),
{
    match a {
        Some(x) => lemma_chars_lt_irreflexive(x),
        None => {},
    }
    match (a, b) {
        (Some(x), Some(y)) => {
            if chars_lt(x, y) {
                lemma_chars_lt_asymmetric(x, y);
            }
            if x != y {
                lemma_chars_lt_total(x, y);
            }
        },
        _ => {},
    }
    match (a, b, c) {
        (Some(x), Some(y), Some(z)) => {
            if chars_lt(x, y) && chars_lt(y, z) {
                lemma_chars_lt_transitive(x, y, z);
            }
        },
        _ => {},
    }
}

pub proof fn lemma_key_lt_facts(x: KeyV, y: KeyV, z: KeyV)
    ensures
        !key_lt(x, x),
        key_lt(x, y) ==> !key_lt(y, x),
        key_lt(x, y) && key_lt(y, z) ==> key_lt(x, z),
        x != y ==> key_lt(x, y) || key_lt(y, x),
{
    lemma_opt_lt_facts(x.path, y.path, z.path);
    lemma_opt_lt_facts(y.path, x.path, z.path);
    lemma_opt_lt_facts(x.path, z.path, y.path);
    lemma_chars_lt_irreflexive(x.text);
    if chars_lt(x.text, y.text) {
        lemma_chars_lt_asymmetric(x.text, y.text);
    }
    if chars_lt(x.text, y.text) && chars_lt(y.text, z.text) {
        lemma_chars_lt_transitive(x.text, y.text, z.text);
    }
    if x.text != y.text {
        lemma_chars_lt_total(x.text, y.text);
    }
    if x.path == y.path && x.line == y.line && x.col == y.col && x.text == y.text {
        assert(x == y);
    }
}

/// Item `i` goes before item `j`: a smaller key, or an equal key and produced earlier.
pub open spec fn entry_lt(keys: Seq<KeyV>, i: int, j: int) -> bool {
    key_lt(keys[i], keys[j]) || (keys[i] == keys[j] && i < j)
}

pub proof fn lemma_entry_lt_facts(keys: Seq<KeyV>, i: int, j: int, k: int)
    ensures
        !entry_lt(keys, i, i),
        entry_lt(keys, i, j) ==> !entry_lt(keys, j, i),
        entry_lt(keys, i, j) && entry_lt(keys, j, k) ==> entry_lt(keys, i, k),
        i != j ==> entry_lt(keys, i, j) || entry_lt(keys, j, i),
{
    lemma_key_lt_facts(keys[i], keys[j], keys[k]);
    lemma_key_lt_facts(keys[j], keys[i], keys[k]);
}

/// Position `j` occurs in `p`.
pub open spec fn listed(p: Seq<usize>, j: int) -> bool {
    exists|i: int| 0 <= i < p.len() && p[i] == j
}

/// `p` lists the positions `0..keys.len()`, each once, in report order.
pub open spec fn is_order(keys: Seq<KeyV>, p: Seq<usize>) -> bool {
    &&& p.len() == keys.len()
    &&& forall|i: int| 0 <= i < p.len() ==> p[i] < keys.len()
    &&& forall|j: int| 0 <= j < keys.len() ==> #[trigger] listed(p, j)
    &&& forall|i: int, j: int| 0 <= i < j < p.len() ==> #[trigger] entry_lt(keys, p[i] as int, p[j] as int)
}

/// Only one arrangement is in report order: the order is a function of the keys.
pub proof fn lemma_order_unique(keys: Seq<KeyV>, p: Seq<usize>, q: Seq<usize>)
    requires
        is_order(keys, p),
        is_order(keys, q),
    ensures
        p == q,
{
    lemma_order_agree_upto(keys, p, q, p.len() as int);
    assert(p =~= q);
}

proof fn lemma_order_agree_upto(keys: Seq<KeyV>, p: Seq<usize>, q: Seq<usize>, d: int)
    requires
        is_order(keys, p),
        is_order(keys, q),
        0 <= d <= p.len(),
    ensures
        forall|e: int| 0 <= e < d ==> p[e] == q[e],
    decreases d,
{
    if d > 0 {
        lemma_order_agree_upto(keys, p, q, d - 1);
        lemma_order_next(keys, p, q, d - 1);
    }
}

proof fn lemma_order_next(keys: Seq<KeyV>, p: Seq<usize>, q: Seq<usize>, d: int)
    requires
        is_order(keys, p),
        is_order(keys, q),
        0 <= d < p.len(),
        forall|e: int| 0 <= e < d ==> p[e] == q[e],
    ensures
        p[d] == q[d],
{
    if p[d] != q[d] {
        lemma_entry_lt_facts(keys, p[d] as int, q[d] as int, 0);
        if entry_lt(keys, p[d] as int, q[d] as int) {
            assert(listed(q, p[d] as int));
            let m = choose|m: int| 0 <= m < q.len() && q[m] == p[d];
            if m < d {
                assert(p[m] == q[m]);
                assert(entry_lt(keys, p[m] as int, p[d] as int));
                lemma_entry_lt_facts(keys, p[d] as int, p[d] as int, 0);
            } else {
                assert(m != d);
                assert(entry_lt(keys, q[d] as int, q[m] as int));
            }
        } else {
            assert(listed(p, q[d] as int));
            let m = choose|m: int| 0 <= m < p.len() && p[m] == q[d];
            if m < d {
                assert(p[m] == q[m]);
                assert(entry_lt(keys, q[m] as int, q[d] as int));
                lemma_entry_lt_facts(keys, q[d] as int, q[d] as int, 0);
            } else {
                assert(m != d);
                assert(entry_lt(keys, p[d] as int, p[m] as int));
            }
        }
    }
}

/// The arrangement of `s` (whose keys are `keys`) in report order.
pub open spec fn sort_by_keys<A>(s: Seq<A>, keys: Seq<KeyV>) -> Seq<A> {
    let p = choose|p: Seq<usize>| is_order(keys, p);
    Seq::new(s.len(), |i: int| s[p[i] as int])
}

/// Any arrangement in report order is the one `sort_by_keys` names.
pub proof fn lemma_sort_by_keys_is<A>(s: Seq<A>, keys: Seq<KeyV>, p: Seq<usize>)
    requires
        is_order(keys, p),
    ensures
        sort_by_keys(s, keys) == Seq::new(s.len(), |i: int| s[p[i] as int]),
{
    let q = choose|q: Seq<usize>| is_order(keys, q);
    lemma_order_unique(keys, p, q);
}

/// The exec form of a key.
pub struct SortKey {
    pub path: Option<Vec<char>>,
    pub line: usize,
    pub col: usize,
    pub text: Vec<char>,
}

pub open spec fn key_view(k: SortKey) -> KeyV {
    KeyV {
        path: match k.path {
            Some(p) => Some(p@),
            None => None,
        },
        line: k.line as int,
        col: k.col as int,
        text: k.text@,
    }
}

pub open spec fn key_views(v: Seq<SortKey>) -> Seq<KeyV> {
    Seq::new(v.len(), |i: int| key_view(v[i]))
}

pub fn chars_less(a: &[char], b: &[char]) -> (r: bool)
    ensures
        r == chars_lt(a@, b@),
{
    let mut i: usize = 0;
    while i < a.len() && i < b.len() && a[i] == b[i]
        invariant
            common_prefix(a@, b@, i as int),
        decreases a@.len() - i,
    {
        i = i + 1;
    }
    let r = if i < b.len() {
        i == a.len() || a[i] < b[i]
    } else {
        false
    };
    proof {
        if r {
            assert(lt_at(a@, b@, i as int));
        } else if chars_lt(a@, b@) {
            let j = choose|j: int| lt_at(a@, b@, j);
            if j < i as int {
                assert(a@[j] == b@[j]);
            } else if j > i as int {
                assert(a@[i as int] == b@[i as int]);
            }
        }
    }
    r
}

pub fn chars_equal(a: &[char], b: &[char]) -> (r: bool)
    ensures
        r == (a@ == b@),
{
    if a.len() != b.len() {
        return false;
    }
    let mut i: usize = 0;
    while i < a.len()
        invariant
            a@.len() == b@.len(),
            common_prefix(a@, b@, i as int),
        decreases a@.len() - i,
    {
        if a[i] != b[i] {
            return false;
        }
        i = i + 1;
    }
    assert(a@ =~= b@);
    true
}

fn opt_chars_equal(a: &Option<Vec<char>>, b: &Option<Vec<char>>) -> (r: bool)
    ensures
        r == (match (*a, *b) {
            (Some(x), Some(y)) => x@ == y@,
            (None, None) => true,
            _ => false,
        }),
{
    match (a, b) {
        (Some(x), Some(y)) => chars_equal(x.as_slice(), y.as_slice()),
        (None, None) => true,
        _ => false,
    }
}

/// `x` goes before `y` by key alone.
pub fn key_less(x: &SortKey, y: &SortKey) -> (r: bool)
    ensures
        r == key_lt(key_view(*x), key_view(*y)),
{
    let ghost kx = key_view(*x);
    let ghost ky = key_view(*y);
    let same_path = opt_chars_equal(&x.path, &y.path);
    assert(same_path == (kx.path == ky.path));
    let path_less = match (&x.path, &y.path) {
        (None, Some(_)) => true,
        (Some(a), Some(b)) => chars_less(a.as_slice(), b.as_slice()),
        _ => false,
    };
    assert(path_less == opt_lt(kx.path, ky.path));
    if path_less {
        true
    } else if !same_path {
        false
    } else if x.line != y.line {
        x.line < y.line
    } else if x.col != y.col {
        x.col < y.col
    } else {
        chars_less(x.text.as_slice(), y.text.as_slice())
    }
}

/// The positions of `keys` in report order (a stable sort by key).
pub fn sort_order(keys: &Vec<SortKey>) -> (p: Vec<usize>)
    ensures
        is_order(key_views(keys@), p@),
{
    let ghost ks = key_views(keys@);
    let n = keys.len();
    let mut p: Vec<usize> = Vec::new();
    let mut k: usize = 0;
    while k < n
        invariant
            n == keys@.len(),
            ks == key_views(keys@),
            k <= n,
            p@.len() == k,
            forall|i: int| 0 <= i < p@.len() ==> p@[i] < k,
            forall|j: int| 0 <= j < k ==> #[trigger] listed(p@, j),
            forall|i: int, j: int| 0 <= i < j < p@.len() ==> #[trigger] entry_lt(ks, p@[i] as int, p@[j] as int),
        decreases n - k,
    {
        let mut pos: usize = 0;
        while pos < p.len() && !key_less(&keys[k], &keys[p[pos]])
            invariant
                n == keys@.len(),
                ks == key_views(keys@),
                k < n,
                pos <= p@.len(),
                p@.len() == k,
                forall|i: int| 0 <= i < p@.len() ==> p@[i] < k,
                forall|i: int| 0 <= i < pos ==> !key_lt(ks[k as int], ks[p@[i] as int]),
            decreases p@.len() - pos,
        {
            pos = pos + 1;
        }
        let ghost old_p = p@;
        proof {
            assert forall|i: int| 0 <= i < pos implies entry_lt(ks, old_p[i] as int, k as int) by {
                lemma_entry_lt_facts(ks, old_p[i] as int, k as int, 0);
            }
            if pos < old_p.len() {
                assert(key_lt(ks[k as int], ks[old_p[pos as int] as int]));
                assert forall|i: int| pos <= i < old_p.len() implies entry_lt(ks, k as int, old_p[i] as int) by {
                    if i > pos {
                        assert(entry_lt(ks, old_p[pos as int] as int, old_p[i] as int));
                        lemma_entry_lt_facts(ks, k as int, old_p[pos as int] as int, old_p[i] as int);
                    }
                }
            }
        }
        p.insert(pos, k);
        proof {
            assert(p@ =~= old_p.subrange(0, pos as int).push(k).add(old_p.subrange(pos as int, old_p.len() as int)));
            assert forall|j: int| 0 <= j < k + 1 implies #[trigger] listed(p@, j) by {
                if j == k {
                    assert(p@[pos as int] == j);
                } else {
                    assert(listed(old_p, j));
                    let i0 = choose|i: int| 0 <= i < old_p.len() && old_p[i] == j;
                    if i0 < pos {
                        assert(p@[i0] == j);
                    } else {
                        assert(p@[i0 + 1] == j);
                    }
                }
            }
            assert forall|i: int, j: int| 0 <= i < j < p@.len() implies #[trigger] entry_lt(ks, p@[i] as int, p@[j] as int) by {
                if i < pos && j < pos {
                    assert(entry_lt(ks, old_p[i] as int, old_p[j] as int));
                } else if i < pos && j == pos {
                } else if i < pos {
                    assert(entry_lt(ks, old_p[i] as int, old_p[j - 1] as int));
                } else if i == pos {
                } else {
                    assert(entry_lt(ks, old_p[i - 1] as int, old_p[j - 1] as int));
                }
            }
        }
        k = k + 1;
    }
    p
}

// ---------------------------------------------------------------- sorted lists of strings

/// Strictly ascending: each sequence before every later one, hence no repeats.
pub open spec fn strictly_sorted(s: Seq<Seq<char>>) -> bool {
    forall|i: int, j: int| 0 <= i < j < s.len() ==> chars_lt(#[trigger] s[i], #[trigger] s[j])
}

/// A strictly sorted list is fixed by the set of its items: two such lists with
/// the same items are the same list.
pub proof fn lemma_strictly_sorted_unique(a: Seq<Seq<char>>, b: Seq<Seq<char>>)
    requires
        strictly_sorted(a),
        strictly_sorted(b),
        a.to_set() == b.to_set(),
    ensures
        a == b,
    decreases a.len() + b.len(),
{
    if a.len() == 0 {
        if b.len() > 0 {
            assert(b.to_set().contains(b[0]));
            assert(!a.contains(b[0]));
        }
        assert(a =~= b);
    } else if b.len() == 0 {
        assert(a.to_set().contains(a[0]));
        assert(!b.contains(a[0]));
    } else {
        // the first items are the least of the same set
        assert(a.to_set().contains(a[0]));
        assert(b.contains(a[0]));
        let j = choose|j: int| 0 <= j < b.len() && b[j] == a[0];
        assert(b.to_set().contains(b[0]));
        assert(a.contains(b[0]));
        let i = choose|i: int| 0 <= i < a.len() && a[i] == b[0];
        if j > 0 {
            assert(chars_lt(b[0], b[j]));
            if i > 0 {
                assert(chars_lt(a[0], a[i]));
                lemma_chars_lt_asymmetric(a[0], b[0]);
            } else {
                lemma_chars_lt_irreflexive(a[0]);
            }
        }
        assert(a[0] == b[0]);
        let a1 = a.drop_first();
        let b1 = b.drop_first();
        assert(strictly_sorted(a1)) by {
            assert forall|p: int, q: int| 0 <= p < q < a1.len() implies chars_lt(#[trigger] a1[p], #[trigger] a1[q]) by {
                assert(a1[p] == a[p + 1] && a1[q] == a[q + 1]);
            }
        }
        assert(strictly_sorted(b1)) by {
            assert forall|p: int, q: int| 0 <= p < q < b1.len() implies chars_lt(#[trigger] b1[p], #[trigger] b1[q]) by {
                assert(b1[p] == b[p + 1] && b1[q] == b[q + 1]);
            }
        }
        assert(a1.to_set() =~= b1.to_set()) by {
            assert forall|x: Seq<char>| a1.to_set().contains(x) implies b1.to_set().contains(x) by {
                let p = choose|p: int| 0 <= p < a1.len() && a1[p] == x;
                assert(a[p + 1] == x);
                assert(chars_lt(a[0], x));
                assert(a.to_set().contains(x));
                assert(b.contains(x));
                let q = choose|q: int| 0 <= q < b.len() && b[q] == x;
                if q == 0 {
                    lemma_chars_lt_irreflexive(x);
                }
                assert(b1[q - 1] == x);
            }
            assert forall|x: Seq<char>| b1.to_set().contains(x) implies a1.to_set().contains(x) by {
                let q = choose|q: int| 0 <= q < b1.len() && b1[q] == x;
                assert(b[q + 1] == x);
                assert(chars_lt(b[0], x));
                assert(b.to_set().contains(x));
                assert(a.contains(x));
                let p = choose|p: int| 0 <= p < a.len() && a[p] == x;
                if p == 0 {
                    lemma_chars_lt_irreflexive(x);
                }
                assert(a1[p - 1] == x);
            }
        }
        lemma_strictly_sorted_unique(a1, b1);
        assert(a =~= seq![a[0]] + a1);
        assert(b =~= seq![b[0]] + b1);
    }
}

/// Adds `x` to a strictly sorted list where it belongs, unless it is there.
pub fn insert_sorted(v: &mut Vec<Vec<char>>, x: Vec<char>)
    requires
        strictly_sorted(text::views(old(v)@)),
    ensures
        strictly_sorted(text::views(final(v)@)),
        text::views(final(v)@).to_set() == text::views(old(v)@).to_set().insert(x@),
{
    let ghost old_v = text::views(v@);
    let mut i: usize = 0;
    while i < v.len() && chars_less(v[i].as_slice(), x.as_slice())
        invariant
            i <= v@.len(),
            old_v == text::views(v@),
            strictly_sorted(old_v),
            forall|k: int| 0 <= k < i ==> chars_lt(#[trigger] old_v[k], x@),
        decreases v@.len() - i,
    {
        assert(old_v[i as int] == v@[i as int]@);
        i = i + 1;
    }
    if i < v.len() {
        assert(old_v[i as int] == v@[i as int]@);
        if chars_equal(v[i].as_slice(), x.as_slice()) {
            assert(old_v.to_set().insert(x@) =~= old_v.to_set());
            return;
        }
        proof {
            lemma_chars_lt_total(old_v[i as int], x@);
        }
    }
    // everything from `i` on comes after `x`
    assert(forall|k: int| i <= k < old_v.len() ==> chars_lt(x@, #[trigger] old_v[k])) by {
        assert forall|k: int| i <= k < old_v.len() implies chars_lt(x@, #[trigger] old_v[k]) by {
            if k > i {
                lemma_chars_lt_transitive(x@, old_v[i as int], old_v[k]);
            }
        }
    }
    v.insert(i, x);
    let ghost nv = text::views(v@);
    assert(nv =~= old_v.insert(i as int, x@));
    assert(strictly_sorted(nv)) by {
        assert forall|p: int, q: int| 0 <= p < q < nv.len() implies chars_lt(#[trigger] nv[p], #[trigger] nv[q]) by {
            if q < i {
            } else if q == i {
            } else if p < i {
                lemma_chars_lt_transitive(nv[p], x@, nv[q]);
            } else if p == i {
            } else {
            }
        }
    }
    assert(nv.to_set() =~= old_v.to_set().insert(x@)) by {
        assert forall|y: Seq<char>| nv.to_set().contains(y) implies old_v.to_set().insert(x@).contains(y) by {
            let p = choose|p: int| 0 <= p < nv.len() && nv[p] == y;
            if p < i {
                assert(old_v[p] == y);
            } else if p > i {
                assert(old_v[p - 1] == y);
            }
        }
        assert forall|y: Seq<char>| old_v.to_set().insert(x@).contains(y) implies nv.to_set().contains(y) by {
            if y == x@ {
                assert(nv[i as int] == y);
            } else {
                let p = choose|p: int| 0 <= p < old_v.len() && old_v[p] == y;
                if p < i {
                    assert(nv[p] == y);
                } else {
                    assert(nv[p + 1] == y);
                }
            }
        }
    }
}


/// `p` lists the positions `0..k`, each once, in report order.
pub open spec fn is_order_upto(keys: Seq<KeyV>, p: Seq<usize>, k: int) -> bool {
    &&& p.len() == k
    &&& forall|i: int| 0 <= i < p.len() ==> p[i] < k
    &&& forall|j: int| 0 <= j < k ==> #[trigger] listed(p, j)
    &&& forall|i: int, j: int| 0 <= i < j < p.len() ==> #[trigger] entry_lt(keys, p[i] as int, p[j] as int)
}

/// The first place in `p`, from `i`, whose key is greater than that of `x`.
pub open spec fn first_greater(keys: Seq<KeyV>, p: Seq<usize>, x: int, i: int) -> int
    decreases p.len() - i,
{
    if i < 0 || i >= p.len() {
        p.len() as int
    } else if key_lt(keys[x], keys[p[i] as int]) {
        i
    } else {
        first_greater(keys, p, x, i + 1)
    }
}

proof fn lemma_first_greater(keys: Seq<KeyV>, p: Seq<usize>, x: int, i: int)
    requires
        0 <= i <= p.len(),
    ensures
        i <= first_greater(keys, p, x, i) <= p.len(),
        forall|m: int| i <= m < first_greater(keys, p, x, i) ==> !key_lt(keys[x], keys[p[m] as int]),
        first_greater(keys, p, x, i) < p.len() ==> key_lt(keys[x], keys[p[first_greater(keys, p, x, i)] as int]),
    decreases p.len() - i,
{
    if i < p.len() && !key_lt(keys[x], keys[p[i] as int]) {
        lemma_first_greater(keys, p, x, i + 1);
    }
}

proof fn lemma_order_upto_exists(keys: Seq<KeyV>, k: int)
    requires
        0 <= k <= keys.len(),
        keys.len() <= usize::MAX,
    ensures
        exists|p: Seq<usize>| is_order_upto(keys, p, k),
    decreases k,
{
    if k == 0 {
        assert(is_order_upto(keys, Seq::<usize>::empty(), 0));
    } else {
        let km = k - 1;
        lemma_order_upto_exists(keys, km);
        let old_p = choose|p: Seq<usize>| is_order_upto(keys, p, km);
        let x = k - 1;
        let pos = first_greater(keys, old_p, x, 0);
        lemma_first_greater(keys, old_p, x, 0);
        assert forall|i: int| 0 <= i < pos implies entry_lt(keys, old_p[i] as int, x) by {
            lemma_entry_lt_facts(keys, old_p[i] as int, x, 0);
        }
        if pos < old_p.len() {
            assert forall|i: int| pos <= i < old_p.len() implies entry_lt(keys, x, old_p[i] as int) by {
                if i > pos {
                    assert(entry_lt(keys, old_p[pos] as int, old_p[i] as int));
                    lemma_entry_lt_facts(keys, x, old_p[pos] as int, old_p[i] as int);
                }
            }
        }
        let p = old_p.subrange(0, pos).push(x as usize).add(old_p.subrange(pos, old_p.len() as int));
        assert forall|j: int| 0 <= j < k implies #[trigger] listed(p, j) by {
            if j == x {
                assert(p[pos] == j);
            } else {
                assert(listed(old_p, j));
                let i0 = choose|i: int| 0 <= i < old_p.len() && old_p[i] == j;
                if i0 < pos {
                    assert(p[i0] == j);
                } else {
                    assert(p[i0 + 1] == j);
                }
            }
        }
        assert forall|i: int, j: int| 0 <= i < j < p.len() implies #[trigger] entry_lt(keys, p[i] as int, p[j] as int) by {
            if i < pos && j < pos {
                assert(entry_lt(keys, old_p[i] as int, old_p[j] as int));
            } else if i < pos && j == pos {
            } else if i < pos {
                assert(entry_lt(keys, old_p[i] as int, old_p[j - 1] as int));
            } else if i == pos {
            } else {
                assert(entry_lt(keys, old_p[i - 1] as int, old_p[j - 1] as int));
            }
        }
        assert(is_order_upto(keys, p, k));
    }
}

/// Every list of keys (that a machine can index) has an arrangement in report order.
pub proof fn lemma_order_exists(keys: Seq<KeyV>)
    requires
        keys.len() <= usize::MAX,
    ensures
        exists|p: Seq<usize>| is_order(keys, p),
{
    let n = keys.len() as int;
    lemma_order_upto_exists(keys, n);
    let p = choose|p: Seq<usize>| is_order_upto(keys, p, n);
    assert(is_order(keys, p));
}

/// Report order, stated outright: `sort_by_keys` rearranges the items, listing each
/// once, by key, ties in the order they came.
pub proof fn lemma_sort_by_keys_sorted<A>(s: Seq<A>, keys: Seq<KeyV>)
    requires
        keys.len() == s.len(),
        s.len() <= usize::MAX,
    ensures
        exists|p: Seq<usize>| #[trigger] is_order(keys, p) && sort_by_keys(s, keys) == Seq::new(s.len(), |i: int| s[p[i] as int]),
{
    lemma_order_exists(keys);
    let p = choose|p: Seq<usize>| is_order(keys, p);
    lemma_sort_by_keys_is(s, keys, p);
}

} // verus!
