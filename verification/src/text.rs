//! Character-level text utilities shared by the formatter, the path helpers
//! and the converters: whitespace, trimming, prefixes, line splitting and a
//! lexicographic order on character sequences.
use vstd::prelude::*;
use vstd::std_specs::iter::IteratorSpec;

verus! {

/// The characters of `s`, in order (`str::chars` collected).
pub(crate) fn chars_of(s: &str) -> (r: Vec<char>)
    ensures
        r@ == s@,
{
    broadcast use vstd::string::axiom_spec_iter, vstd::string::next_postcondition;

    let mut it = s.chars();
    let mut out: Vec<char> = Vec::new();
    loop
        invariant
            out@ + it.remaining() == s@,
            it.decrease() is Some,
        ensures
            out@ == s@,
        decreases it.decrease()->0,
    {
        let ghost before = it.remaining();
        match it.next() {
            Some(c) => {
                out.push(c);
                assert(out@ + it.remaining() =~= s@) by {
                    assert(before =~= seq![c] + it.remaining());
                }
            },
            None => {
                assert(out@ =~= s@);
                break ;
            },
        }
    }
    out
}

/// The string made of the characters of `v` (`String::from_iter`).
#[verifier::external_body]
pub(crate) fn string_of(v: &[char]) -> (r: String)
    ensures
        r@ == v@,
{
    v.iter().collect()
}

/// Unicode `White_Space`, the property that `char::is_whitespace` tests.
pub open spec fn is_ws(c: char) -> bool {
    ||| ('\u{9}' <= c && c <= '\u{d}')
    ||| c == ' '
    ||| c == '\u{85}'
    ||| c == '\u{a0}'
    ||| c == '\u{1680}'
    ||| ('\u{2000}' <= c && c <= '\u{200a}')
    ||| c == '\u{2028}'
    ||| c == '\u{2029}'
    ||| c == '\u{202f}'
    ||| c == '\u{205f}'
    ||| c == '\u{3000}'
}

/// Whether `c` is whitespace, as `char::is_whitespace` decides.
pub fn is_whitespace(c: char) -> (r: bool)
    ensures
        r == is_ws(c),
{
    ('\u{9}' <= c && c <= '\u{d}') || c == ' ' || c == '\u{85}' || c == '\u{a0}' || c
        == '\u{1680}' || ('\u{2000}' <= c && c <= '\u{200a}') || c == '\u{2028}' || c
        == '\u{2029}' || c == '\u{202f}' || c == '\u{205f}' || c == '\u{3000}'
}

/// Every character of `s` is whitespace (so `s.trim()` is empty).
pub open spec fn blank(s: Seq<char>) -> bool {
    forall|i: int| 0 <= i < s.len() ==> is_ws(#[trigger] s[i])
}

/// `p` is a prefix of `s`.
pub open spec fn has_prefix(s: Seq<char>, p: Seq<char>) -> bool {
    p.len() <= s.len() && s.subrange(0, p.len() as int) == p
}

/// `p` is a suffix of `s`.
pub open spec fn has_suffix(s: Seq<char>, p: Seq<char>) -> bool {
    p.len() <= s.len() && s.subrange(s.len() - p.len(), s.len() as int) == p
}

/// The index of the first non-whitespace character at or after `i`
/// (or the length of `s`).
pub open spec fn ws_run(s: Seq<char>, i: int) -> int
    decreases s.len() - i,
{
    if 0 <= i < s.len() && is_ws(s[i]) {
        ws_run(s, i + 1)
    } else {
        i
    }
}

/// The end of `s[..j]` once trailing whitespace is dropped.
pub open spec fn ws_back(s: Seq<char>, j: int) -> int
    decreases j,
{
    if 0 < j <= s.len() && is_ws(s[j - 1]) {
        ws_back(s, j - 1)
    } else {
        j
    }
}

/// `str::trim_start`: `s` without its leading whitespace.
pub open spec fn trim_start(s: Seq<char>) -> Seq<char> {
    s.skip(ws_run(s, 0))
}

/// `str::trim_end`: `s` without its trailing whitespace.
pub open spec fn trim_end(s: Seq<char>) -> Seq<char> {
    s.take(ws_back(s, s.len() as int))
}

/// `str::trim`: `s` without leading and trailing whitespace.
pub open spec fn trim(s: Seq<char>) -> Seq<char> {
    trim_end(trim_start(s))
}

proof fn lemma_ws_run(s: Seq<char>, i: int)
    requires
        0 <= i <= s.len(),
    ensures
        i <= ws_run(s, i) <= s.len(),
        forall|k: int| i <= k < ws_run(s, i) ==> is_ws(#[trigger] s[k]),
        ws_run(s, i) < s.len() ==> !is_ws(s[ws_run(s, i)]),
    decreases s.len() - i,
{
    if i < s.len() && is_ws(s[i]) {
        lemma_ws_run(s, i + 1);
    }
}

proof fn lemma_ws_back(s: Seq<char>, j: int)
    requires
        0 <= j <= s.len(),
    ensures
        0 <= ws_back(s, j) <= j,
        forall|k: int| ws_back(s, j) <= k < j ==> is_ws(#[trigger] s[k]),
        ws_back(s, j) > 0 ==> !is_ws(s[ws_back(s, j) - 1]),
    decreases j,
{
    if 0 < j && is_ws(s[j - 1]) {
        lemma_ws_back(s, j - 1);
    }
}

/// A line is blank exactly when trimming it leaves nothing (the test that
/// `str::trim().is_empty()` makes).
pub proof fn law_blank_iff_trim_empty(s: Seq<char>)
    ensures
        blank(s) <==> trim(s).len() == 0,
{
    lemma_ws_run(s, 0);
    let t = trim_start(s);
    lemma_ws_back(t, t.len() as int);
    if trim(s).len() == 0 {
        assert forall|i: int| 0 <= i < s.len() implies is_ws(#[trigger] s[i]) by {
            if i >= ws_run(s, 0) {
                assert(s[i] == t[i - ws_run(s, 0)]);
            }
        }
    }
    if blank(s) {
        assert(ws_run(s, 0) == s.len());
    }
}

/// Whether every character of `s` is whitespace.
pub fn is_blank(s: &[char]) -> (r: bool)
    ensures
        r == blank(s@),
{
    let mut i: usize = 0;
    while i < s.len()
        invariant
            0 <= i <= s.len(),
            forall|k: int| 0 <= k < i ==> is_ws(#[trigger] s@[k]),
        decreases s.len() - i,
    {
        if !is_whitespace(s[i]) {
            return false;
        }
        i = i + 1;
    }
    true
}

/// `s` with leading and trailing whitespace removed.
pub fn trimmed(s: &[char]) -> (r: Vec<char>)
    ensures
        r@ == trim(s@),
{
    let mut i: usize = 0;
    while i < s.len() && is_whitespace(s[i])
        invariant
            0 <= i <= s.len(),
            ws_run(s@, i as int) == ws_run(s@, 0),
        decreases s.len() - i,
    {
        i = i + 1;
    }
    let ghost t = s@.skip(i as int);
    let mut j: usize = s.len();
    while j > i && is_whitespace(s[j - 1])
        invariant
            i <= j <= s.len(),
            t == s@.skip(i as int),
            ws_back(t, j - i) == ws_back(t, t.len() as int),
        decreases j,
    {
        assert(t[j - i - 1] == s@[j - 1]);
        j = j - 1;
    }
    proof {
        if j > i {
            assert(t[j - i - 1] == s@[j - 1]);
        }
    }
    let mut r: Vec<char> = Vec::new();
    let mut k: usize = i;
    while k < j
        invariant
            i <= k <= j <= s.len(),
            r@ == s@.subrange(i as int, k as int),
        decreases j - k,
    {
        r.push(s[k]);
        k = k + 1;
    }
    assert(r@ =~= trim(s@));
    r
}

/// Whether `p` is a prefix of `s`.
pub fn starts_with(s: &[char], p: &[char]) -> (r: bool)
    ensures
        r == has_prefix(s@, p@),
{
    if p.len() > s.len() {
        return false;
    }
    let mut i: usize = 0;
    while i < p.len()
        invariant
            p.len() <= s.len(),
            0 <= i <= p.len(),
            forall|k: int| 0 <= k < i ==> s@[k] == p@[k],
        decreases p.len() - i,
    {
        if s[i] != p[i] {
            assert(s@.subrange(0, p.len() as int)[i as int] != p@[i as int]);
            return false;
        }
        i = i + 1;
    }
    assert(s@.subrange(0, p.len() as int) =~= p@);
    true
}

/// Whether `p` is a suffix of `s`.
pub fn ends_with(s: &[char], p: &[char]) -> (r: bool)
    ensures
        r == has_suffix(s@, p@),
{
    if p.len() > s.len() {
        return false;
    }
    let off: usize = s.len() - p.len();
    let mut i: usize = 0;
    while i < p.len()
        invariant
            p.len() <= s.len(),
            off == s.len() - p.len(),
            0 <= i <= p.len(),
            forall|k: int| 0 <= k < i ==> s@[off + k] == p@[k],
        decreases p.len() - i,
    {
        if s[off + i] != p[i] {
            assert(s@.subrange(off as int, s.len() as int)[i as int] != p@[i as int]);
            return false;
        }
        i = i + 1;
    }
    assert(s@.subrange(off as int, s.len() as int) =~= p@);
    true
}

/// Appends the characters of `src` to `dst`.
pub fn push_all(dst: &mut Vec<char>, src: &[char])
    ensures
        final(dst)@ == old(dst)@ + src@,
{
    let mut i: usize = 0;
    while i < src.len()
        invariant
            0 <= i <= src.len(),
            dst@ == old(dst)@ + src@.subrange(0, i as int),
        decreases src.len() - i,
    {
        dst.push(src[i]);
        i = i + 1;
    }
    assert(src@.subrange(0, src.len() as int) =~= src@);
}

/// Appends the characters of `s` to `dst`.
pub fn push_str(dst: &mut Vec<char>, s: &str)
    ensures
        final(dst)@ == old(dst)@ + s@,
{
    let c = chars_of(s);
    push_all(dst, c.as_slice());
}


/// The character sequences held by a vector of character vectors.
pub open spec fn views(v: Seq<Vec<char>>) -> Seq<Seq<char>> {
    v.map_values(|x: Vec<char>| x@)
}

/// `find_nl` stays in range and lands on a newline when it finds one.
pub proof fn lemma_find_nl_range(s: Seq<char>, i: int)
    requires
        0 <= i,
    ensures
        i <= find_nl(s, i) <= s.len() || (i > s.len() && find_nl(s, i) == s.len()),
        find_nl(s, i) < s.len() ==> s[find_nl(s, i)] == '\n',
    decreases s.len() - i,
{
    if i < s.len() && s[i] != '\n' {
        lemma_find_nl_range(s, i + 1);
    }
}

/// The index of the first `'\n'` at or after `i` (or the length of `s`).
pub open spec fn find_nl(s: Seq<char>, i: int) -> int
    decreases s.len() - i,
{
    if i < 0 || i >= s.len() {
        s.len() as int
    } else if s[i] == '\n' {
        i
    } else {
        find_nl(s, i + 1)
    }
}

/// A line without its terminating `'\r'`, if it has one.
pub open spec fn strip_cr(l: Seq<char>) -> Seq<char> {
    if l.len() > 0 && l.last() == '\r' {
        l.drop_last()
    } else {
        l
    }
}

/// `str::lines`: the lines of `s`, split at `'\n'` or `"\r\n"`, without their
/// terminators; a final line ending adds no empty line.
pub open spec fn lines(s: Seq<char>) -> Seq<Seq<char>>
    decreases s.len(),
{
    if s.len() == 0 {
        seq![]
    } else {
        let k = find_nl(s, 0);
        proof {
            lemma_find_nl_range(s, 0);
        }
        if k >= s.len() {
            seq![s]
        } else {
            seq![strip_cr(s.take(k))] + lines(s.skip(k + 1))
        }
    }
}

proof fn lemma_find_nl_skip(s: Seq<char>, start: int, i: int)
    requires
        0 <= start <= i <= s.len(),
        forall|k: int| start <= k < i ==> s[k] != '\n',
    ensures
        find_nl(s.skip(start), 0) == find_nl(s.skip(start), i - start),
    decreases i - start,
{
    if i > start {
        lemma_find_nl_skip(s, start, i - 1);
        let t = s.skip(start);
        assert(t[i - 1 - start] == s[i - 1]);
    }
}

/// The lines of `s`, as `str::lines` yields them.
pub fn split_lines(s: &[char]) -> (r: Vec<Vec<char>>)
    ensures
        views(r@) == lines(s@),
{
    let mut out: Vec<Vec<char>> = Vec::new();
    let mut cur: Vec<char> = Vec::new();
    let mut start: usize = 0;
    let mut i: usize = 0;
    assert(s@.skip(0) =~= s@);
    while i < s.len()
        invariant
            0 <= start <= i <= s.len(),
            cur@ == s@.subrange(start as int, i as int),
            forall|k: int| start <= k < i ==> s@[k] != '\n',
            views(out@) + lines(s@.skip(start as int)) == lines(s@),
        decreases s.len() - i,
    {
        if s[i] == '\n' {
            let ghost t = s@.skip(start as int);
            proof {
                lemma_find_nl_skip(s@, start as int, i as int);
                assert(t[i - start] == '\n');
                assert(t.take(i - start) =~= cur@);
                assert(t.skip(i - start + 1) =~= s@.skip(i + 1));
            }
            let mut line = cur;
            if line.len() > 0 && line[line.len() - 1] == '\r' {
                line.pop();
            }
            proof {
                assert(line@ =~= strip_cr(t.take(i - start)));
                assert(views(out@).push(line@) + lines(s@.skip(i + 1)) =~= views(out@)
                    + lines(t));
            }
            let ghost prev = views(out@);
            let ghost lv = line@;
            out.push(line);
            assert(views(out@) =~= prev.push(lv));
            cur = Vec::new();
            start = i + 1;
        } else {
            cur.push(s[i]);
        }
        i = i + 1;
    }
    proof {
        let t = s@.skip(start as int);
        lemma_find_nl_skip(s@, start as int, s.len() as int);
        assert(t =~= cur@);
        if t.len() > 0 {
            assert(lines(t) == seq![t]);
        }
    }
    if start < s.len() {
        let ghost prev = views(out@);
        let ghost cv = cur@;
        out.push(cur);
        assert(views(out@) =~= prev + seq![cv]);
    } else {
        assert(lines(s@.skip(start as int)) =~= seq![]);
    }
    assert(views(out@) =~= lines(s@));
    out
}

/// Lexicographic order by code point, the order of `str`'s `Ord`
/// (UTF-8 byte order and code point order agree).
pub open spec fn lex_le(a: Seq<char>, b: Seq<char>) -> bool
    decreases a.len(),
{
    if a.len() == 0 {
        true
    } else if b.len() == 0 {
        false
    } else if a[0] != b[0] {
        a[0] < b[0]
    } else {
        lex_le(a.drop_first(), b.drop_first())
    }
}

/// `lex_le` is total.
pub proof fn lemma_lex_total(a: Seq<char>, b: Seq<char>)
    ensures
        lex_le(a, b) || lex_le(b, a),
    decreases a.len(),
{
    if a.len() > 0 && b.len() > 0 && a[0] == b[0] {
        lemma_lex_total(a.drop_first(), b.drop_first());
    }
}

/// `lex_le` is antisymmetric.
pub proof fn lemma_lex_antisym(a: Seq<char>, b: Seq<char>)
    requires
        lex_le(a, b),
        lex_le(b, a),
    ensures
        a == b,
    decreases a.len(),
{
    if a.len() > 0 && b.len() > 0 {
        lemma_lex_antisym(a.drop_first(), b.drop_first());
        assert(a =~= seq![a[0]] + a.drop_first());
        assert(b =~= seq![b[0]] + b.drop_first());
    }
}

/// `lex_le` is transitive.
pub proof fn lemma_lex_trans(a: Seq<char>, b: Seq<char>, c: Seq<char>)
    requires
        lex_le(a, b),
        lex_le(b, c),
    ensures
        lex_le(a, c),
    decreases a.len(),
{
    if a.len() > 0 && b.len() > 0 && c.len() > 0 && a[0] == b[0] && b[0] == c[0] {
        lemma_lex_trans(a.drop_first(), b.drop_first(), c.drop_first());
    }
}

/// Whether `a` is at most `b` in code point order.
pub fn lex_le_exec(a: &[char], b: &[char]) -> (r: bool)
    ensures
        r == lex_le(a@, b@),
{
    let mut i: usize = 0;
    assert(a@.skip(0) =~= a@ && b@.skip(0) =~= b@);
    while i < a.len() && i < b.len()
        invariant
            0 <= i <= a.len(),
            i <= b.len(),
            lex_le(a@, b@) == lex_le(a@.skip(i as int), b@.skip(i as int)),
        decreases a.len() - i,
    {
        if a[i] != b[i] {
            assert(a@.skip(i as int)[0] == a@[i as int]);
            assert(b@.skip(i as int)[0] == b@[i as int]);
            return a[i] < b[i];
        }
        assert(a@.skip(i as int).drop_first() =~= a@.skip(i + 1));
        assert(b@.skip(i as int).drop_first() =~= b@.skip(i + 1));
        i = i + 1;
    }
    i == a.len()
}

/// Every element is at most every later one.
pub open spec fn sorted(s: Seq<Seq<char>>) -> bool {
    forall|i: int, j: int| 0 <= i < j < s.len() ==> lex_le(s[i], s[j])
}

/// `x` placed into `s` before the first element that it does not exceed.
pub open spec fn insert_sorted(x: Seq<char>, s: Seq<Seq<char>>) -> Seq<Seq<char>>
    decreases s.len(),
{
    if s.len() == 0 {
        seq![x]
    } else if lex_le(x, s[0]) {
        seq![x] + s
    } else {
        seq![s[0]] + insert_sorted(x, s.drop_first())
    }
}

/// The elements of `s` in ascending order (as `slice::sort` leaves them).
pub open spec fn sort_seq(s: Seq<Seq<char>>) -> Seq<Seq<char>>
    decreases s.len(),
{
    if s.len() == 0 {
        seq![]
    } else {
        insert_sorted(s.last(), sort_seq(s.drop_last()))
    }
}

proof fn lemma_insert_sorted(x: Seq<char>, s: Seq<Seq<char>>)
    requires
        sorted(s),
    ensures
        sorted(insert_sorted(x, s)),
        insert_sorted(x, s).to_multiset() == s.to_multiset().insert(x),
        insert_sorted(x, s).len() == s.len() + 1,
        forall|y: Seq<char>| #[trigger] insert_sorted(x, s).contains(y) ==> y == x || s.contains(y),
    decreases s.len(),
{
    broadcast use vstd::seq_lib::group_to_multiset_ensures;
    broadcast use vstd::multiset::group_multiset_axioms;

    let r = insert_sorted(x, s);
    if s.len() == 0 {
        assert(r.to_multiset() =~= Seq::<Seq<char>>::empty().to_multiset().insert(x)) by {
            assert(r =~= Seq::<Seq<char>>::empty().push(x));
        }
    } else if lex_le(x, s[0]) {
        assert forall|i: int, j: int| 0 <= i < j < r.len() implies lex_le(r[i], r[j]) by {
            if i == 0 && j > 1 {
                lemma_lex_trans(x, s[0], s[j - 1]);
            }
        }
        assert(r =~= s.insert(0, x));
        vstd::seq_lib::to_multiset_insert(s, 0, x);
        assert forall|y: Seq<char>| #[trigger] r.contains(y) implies y == x || s.contains(y) by {
            let k = choose|k: int| 0 <= k < r.len() && r[k] == y;
            if k > 0 {
                assert(s[k - 1] == y);
            }
        }
    } else {
        let t = s.drop_first();
        assert forall|i: int, j: int| 0 <= i < j < t.len() implies lex_le(t[i], t[j]) by {
            assert(t[i] == s[i + 1] && t[j] == s[j + 1]);
        }
        lemma_insert_sorted(x, t);
        let rt = insert_sorted(x, t);
        lemma_lex_total(x, s[0]);
        assert forall|i: int, j: int| 0 <= i < j < r.len() implies lex_le(r[i], r[j]) by {
            if i == 0 {
                assert(r[j] == rt[j - 1]);
                assert(rt.contains(rt[j - 1]));
                if rt[j - 1] != x {
                    let k = choose|k: int| 0 <= k < t.len() && t[k] == rt[j - 1];
                    assert(s[k + 1] == t[k]);
                }
            } else {
                assert(r[i] == rt[i - 1] && r[j] == rt[j - 1]);
            }
        }
        assert(r =~= seq![s[0]] + rt);
        assert(s =~= seq![s[0]] + t);
        vstd::seq_lib::lemma_multiset_commutative(seq![s[0]], rt);
        vstd::seq_lib::lemma_multiset_commutative(seq![s[0]], t);
        assert(r.to_multiset() =~= s.to_multiset().insert(x));
        assert forall|y: Seq<char>| #[trigger] r.contains(y) implies y == x || s.contains(y) by {
            let k = choose|k: int| 0 <= k < r.len() && r[k] == y;
            if k > 0 {
                assert(rt.contains(rt[k - 1]));
                if y != x {
                    let m = choose|m: int| 0 <= m < t.len() && t[m] == y;
                    assert(s[m + 1] == y);
                }
            }
        }
    }
}

/// Sorting yields an ascending arrangement of the same elements.
pub proof fn lemma_sort_seq(s: Seq<Seq<char>>)
    ensures
        sorted(sort_seq(s)),
        sort_seq(s).to_multiset() == s.to_multiset(),
        sort_seq(s).len() == s.len(),
    decreases s.len(),
{
    broadcast use vstd::seq_lib::group_to_multiset_ensures;

    if s.len() > 0 {
        lemma_sort_seq(s.drop_last());
        lemma_insert_sorted(s.last(), sort_seq(s.drop_last()));
        assert(s =~= s.drop_last().push(s.last()));
    } else {
        assert(s.to_multiset() =~= sort_seq(s).to_multiset());
    }
}

proof fn lemma_insert_sorted_at(x: Seq<char>, s: Seq<Seq<char>>, p: int)
    requires
        0 <= p <= s.len(),
        forall|k: int| 0 <= k < p ==> !lex_le(x, #[trigger] s[k]),
        p < s.len() ==> lex_le(x, s[p]),
    ensures
        insert_sorted(x, s) == s.insert(p, x),
    decreases s.len(),
{
    if s.len() > 0 && p > 0 {
        let t = s.drop_first();
        assert forall|k: int| 0 <= k < p - 1 implies !lex_le(x, #[trigger] t[k]) by {
            assert(t[k] == s[k + 1]);
        }
        lemma_insert_sorted_at(x, t, p - 1);
        assert(s.insert(p, x) =~= seq![s[0]] + t.insert(p - 1, x));
    } else if s.len() > 0 {
        assert(s.insert(0, x) =~= seq![x] + s);
    } else {
        assert(s.insert(0, x) =~= seq![x]);
    }
}

/// The elements of `v` in ascending code point order.
pub fn sort_lines(v: Vec<Vec<char>>) -> (r: Vec<Vec<char>>)
    ensures
        views(r@) == sort_seq(views(v@)),
{
    let mut out: Vec<Vec<char>> = Vec::new();
    let mut i: usize = 0;
    while i < v.len()
        invariant
            0 <= i <= v.len(),
            views(out@) == sort_seq(views(v@).take(i as int)),
        decreases v.len() - i,
    {
        let ghost before = views(out@);
        let x = v[i].clone();
        assert(x@ == v@[i as int]@);
        let mut p: usize = 0;
        while p < out.len() && !lex_le_exec(x.as_slice(), out[p].as_slice())
            invariant
                0 <= p <= out.len(),
                before == views(out@),
                forall|k: int| 0 <= k < p ==> !lex_le(x@, #[trigger] before[k]),
            decreases out.len() - p,
        {
            p = p + 1;
        }
        proof {
            lemma_insert_sorted_at(x@, before, p as int);
            let vt = views(v@).take(i + 1);
            assert(vt.drop_last() =~= views(v@).take(i as int));
            assert(vt.last() == x@);
        }
        out.insert(p, x);
        assert(views(out@) =~= before.insert(p as int, x@));
        i = i + 1;
    }
    assert(views(v@).take(v.len() as int) =~= views(v@));
    out
}

/// Whether `a` and `b` hold the same characters.
pub fn slices_equal(a: &[char], b: &[char]) -> (r: bool)
    ensures
        r == (a@ == b@),
{
    if a.len() != b.len() {
        return false;
    }
    let mut i: usize = 0;
    while i < a.len()
        invariant
            a.len() == b.len(),
            0 <= i <= a.len(),
            forall|k: int| 0 <= k < i ==> a@[k] == b@[k],
        decreases a.len() - i,
    {
        if a[i] != b[i] {
            return false;
        }
        i = i + 1;
    }
    assert(a@ =~= b@);
    true
}

/// Whether `a` and `b` are the same string.
pub fn str_equal(a: &str, b: &str) -> (r: bool)
    ensures
        r == (a@ == b@),
{
    let ca = chars_of(a);
    let cb = chars_of(b);
    slices_equal(ca.as_slice(), cb.as_slice())
}

/// The index of the first `c` at or after `i` (or the length of `s`).
pub open spec fn find_char(s: Seq<char>, i: int, c: char) -> int
    decreases s.len() - i,
{
    if i < 0 || i >= s.len() {
        s.len() as int
    } else if s[i] == c {
        i
    } else {
        find_char(s, i + 1, c)
    }
}

/// `find_char` stays in range, lands on `c` when it finds one, and passes
/// over no `c`.
pub proof fn lemma_find_char(s: Seq<char>, i: int, c: char)
    requires
        0 <= i <= s.len(),
    ensures
        i <= find_char(s, i, c) <= s.len(),
        find_char(s, i, c) < s.len() ==> s[find_char(s, i, c)] == c,
        forall|k: int| i <= k < find_char(s, i, c) ==> s[k] != c,
    decreases s.len() - i,
{
    if i < s.len() && s[i] != c {
        lemma_find_char(s, i + 1, c);
    }
}

/// An owned copy of `t`.
pub fn owned(t: &str) -> (r: String)
    ensures
        r@ == t@,
{
    string_of(chars_of(t).as_slice())
}

/// `a` followed by `b`.
pub fn concat(a: &str, b: &str) -> (r: String)
    ensures
        r@ == a@ + b@,
{
    let mut v = chars_of(a);
    push_str(&mut v, b);
    string_of(v.as_slice())
}

/// `a`, `b` and `c` one after the other.
pub fn cat3(a: &str, b: &str, c: &str) -> (r: String)
    ensures
        r@ == a@ + b@ + c@,
{
    let mut v = chars_of(a);
    push_str(&mut v, b);
    push_str(&mut v, c);
    string_of(v.as_slice())
}

/// `a` to `e` one after the other.
pub fn cat5(a: &str, b: &str, c: &str, d: &str, e: &str) -> (r: String)
    ensures
        r@ == a@ + b@ + c@ + d@ + e@,
{
    let mut v = chars_of(a);
    push_str(&mut v, b);
    push_str(&mut v, c);
    push_str(&mut v, d);
    push_str(&mut v, e);
    string_of(v.as_slice())
}

/// The decimal digit `d` (0 to 9).
pub open spec fn digit(d: int) -> char {
    (d + 48) as char
}

/// The decimal notation of `n`, without leading zeros (`u64::to_string`).
pub open spec fn decimal(n: nat) -> Seq<char>
    decreases n,
{
    if n < 10 {
        seq![digit(n as int)]
    } else {
        decimal(n / 10) + seq![digit((n % 10) as int)]
    }
}

/// The character of the decimal digit `d`.
fn digit_char(d: u64) -> (c: char)
    requires
        d < 10,
    ensures
        c == digit(d as int),
{
    let b: u8 = d as u8 + 48;
    b as char
}

/// The decimal notation of `n`.
pub fn decimal_string(n: u64) -> (r: String)
    ensures
        r@ == decimal(n as nat),
{
    let mut out: Vec<char> = Vec::new();
    let mut m: u64 = n;
    assert(decimal(n as nat) =~= decimal(m as nat) + out@);
    while m >= 10
        invariant
            decimal(n as nat) == decimal(m as nat) + out@,
        decreases m,
    {
        let d = digit_char(m % 10);
        let ghost before = out@;
        out.insert(0, d);
        assert(decimal(m as nat) == decimal((m / 10) as nat) + seq![digit((m % 10) as int)]);
        assert(decimal((m / 10) as nat) + out@ =~= decimal(m as nat) + before);
        m = m / 10;
    }
    let d = digit_char(m);
    let ghost before = out@;
    out.insert(0, d);
    assert(out@ =~= decimal(m as nat) + before);
    string_of(out.as_slice())
}

/// `s` with every `from` replaced by `to`.
pub open spec fn replace_char(s: Seq<char>, from: char, to: char) -> Seq<char> {
    Seq::new(s.len(), |i: int| if s[i] == from { to } else { s[i] })
}

/// `s` with every `from` replaced by `to`.
pub fn replace_chars(s: &[char], from: char, to: char) -> (r: Vec<char>)
    ensures
        r@ == replace_char(s@, from, to),
{
    let mut out: Vec<char> = Vec::new();
    let mut i: usize = 0;
    while i < s.len()
        invariant
            0 <= i <= s.len(),
            out@ == replace_char(s@.subrange(0, i as int), from, to),
        decreases s.len() - i,
    {
        let c = if s[i] == from {
            to
        } else {
            s[i]
        };
        out.push(c);
        i = i + 1;
        assert(out@ =~= replace_char(s@.subrange(0, i as int), from, to));
    }
    assert(s@.subrange(0, s.len() as int) =~= s@);
    out
}

/// The length of `s` once its trailing `c`s are dropped.
pub open spec fn back_run(s: Seq<char>, j: int, c: char) -> int
    decreases j,
{
    if 0 < j <= s.len() && s[j - 1] == c {
        back_run(s, j - 1, c)
    } else {
        j
    }
}

/// `str::trim_end_matches(c)`: `s` without its trailing `c`s.
pub open spec fn trim_end_char(s: Seq<char>, c: char) -> Seq<char> {
    s.subrange(0, back_run(s, s.len() as int, c))
}

proof fn lemma_back_run(s: Seq<char>, j: int, c: char)
    requires
        0 <= j <= s.len(),
    ensures
        0 <= back_run(s, j, c) <= j,
    decreases j,
{
    if 0 < j && s[j - 1] == c {
        lemma_back_run(s, j - 1, c);
    }
}

/// `s` without its trailing `c`s.
pub fn trim_end_chars(s: &[char], c: char) -> (r: Vec<char>)
    ensures
        r@ == trim_end_char(s@, c),
{
    let mut j: usize = s.len();
    while j > 0 && s[j - 1] == c
        invariant
            0 <= j <= s.len(),
            back_run(s@, j as int, c) == back_run(s@, s.len() as int, c),
        decreases j,
    {
        j = j - 1;
    }
    proof {
        lemma_back_run(s@, s.len() as int, c);
    }
    let mut r: Vec<char> = Vec::new();
    let mut k: usize = 0;
    while k < j
        invariant
            0 <= k <= j <= s.len(),
            r@ == s@.subrange(0, k as int),
        decreases j - k,
    {
        r.push(s[k]);
        k = k + 1;
    }
    r
}

/// The first index at or after `i` where `pat` occurs in `s` (or `s.len()`).
pub open spec fn find_from(s: Seq<char>, pat: Seq<char>, i: int) -> int
    decreases s.len() - i,
{
    if i < 0 || i >= s.len() || i + pat.len() > s.len() {
        s.len() as int
    } else if has_prefix(s.skip(i), pat) {
        i
    } else {
        find_from(s, pat, i + 1)
    }
}

/// `str::replacen(pat, rep, 1)` for a non-empty `pat`: the first occurrence
/// of `pat` in `s` replaced by `rep` (`s` itself when there is none).
pub open spec fn replace_first(s: Seq<char>, pat: Seq<char>, rep: Seq<char>) -> Seq<char> {
    let i = find_from(s, pat, 0);
    if i < s.len() {
        s.subrange(0, i) + rep + s.skip(i + pat.len())
    } else {
        s
    }
}

proof fn lemma_find_from(s: Seq<char>, pat: Seq<char>, i: int)
    requires
        0 <= i,
    ensures
        find_from(s, pat, i) == s.len() || (i <= find_from(s, pat, i) && find_from(s, pat, i)
            + pat.len() <= s.len()),
    decreases s.len() - i,
{
    if i < s.len() && i + pat.len() <= s.len() && !has_prefix(s.skip(i), pat) {
        lemma_find_from(s, pat, i + 1);
    }
}

/// Whether `pat` occurs in `s` at `i`.
fn occurs_at(s: &[char], i: usize, pat: &[char]) -> (r: bool)
    requires
        i + pat.len() <= s.len(),
    ensures
        r == has_prefix(s@.skip(i as int), pat@),
{
    let mut j: usize = 0;
    while j < pat.len()
        invariant
            i + pat.len() <= s.len(),
            0 <= j <= pat.len(),
            forall|k: int| 0 <= k < j ==> s@[i + k] == pat@[k],
        decreases pat.len() - j,
    {
        if s[i + j] != pat[j] {
            assert(s@.skip(i as int).subrange(0, pat@.len() as int)[j as int] != pat@[j as int]);
            return false;
        }
        j = j + 1;
    }
    assert(s@.skip(i as int).subrange(0, pat@.len() as int) =~= pat@);
    true
}

/// The first occurrence of `pat` in `s` replaced by `rep`.
pub fn replace_first_exec(s: &[char], pat: &[char], rep: &[char]) -> (r: Vec<char>)
    requires
        pat.len() > 0,
    ensures
        r@ == replace_first(s@, pat@, rep@),
{
    let mut i: usize = 0;
    let mut found = false;
    while !found && i < s.len() && pat.len() <= s.len() - i
        invariant
            0 <= i <= s.len(),
            pat.len() > 0,
            find_from(s@, pat@, i as int) == find_from(s@, pat@, 0),
            !found ==> (i >= s.len() || i + pat.len() > s.len()) ==> find_from(s@, pat@, i as int)
                == s.len(),
            found ==> i + pat.len() <= s.len() && has_prefix(s@.skip(i as int), pat@),
        decreases s.len() - i, if found { 0int } else { 1int },
    {
        if occurs_at(s, i, pat) {
            found = true;
        } else {
            i = i + 1;
        }
    }
    proof {
        lemma_find_from(s@, pat@, 0);
    }
    if !found {
        let mut r: Vec<char> = Vec::new();
        push_all(&mut r, s);
        assert(r@ =~= s@);
        return r;
    }
    let mut r: Vec<char> = Vec::new();
    let mut k: usize = 0;
    while k < i
        invariant
            0 <= k <= i,
            i + pat.len() <= s.len(),
            r@ == s@.subrange(0, k as int),
        decreases i - k,
    {
        r.push(s[k]);
        k = k + 1;
    }
    push_all(&mut r, rep);
    let mut k: usize = i + pat.len();
    let ghost mid = r@;
    while k < s.len()
        invariant
            i + pat.len() <= k <= s.len(),
            r@ == mid + s@.subrange((i + pat.len()) as int, k as int),
        decreases s.len() - k,
    {
        r.push(s[k]);
        k = k + 1;
    }
    assert(r@ =~= s@.subrange(0, i as int) + rep@ + s@.skip(i + pat@.len()));
    r
}

/// The parts joined with `sep` between each two (`[String]::join`).
pub open spec fn join(parts: Seq<Seq<char>>, sep: Seq<char>) -> Seq<char>
    decreases parts.len(),
{
    if parts.len() == 0 {
        seq![]
    } else if parts.len() == 1 {
        parts[0]
    } else {
        join(parts.drop_last(), sep) + sep + parts.last()
    }
}

/// The strings joined with `sep` between each two.
pub fn join_strings(parts: &Vec<String>, sep: &str) -> (r: String)
    ensures
        r@ == join(parts@.map_values(|s: String| s@), sep@),
{
    let ghost pv = parts@.map_values(|s: String| s@);
    let mut out: Vec<char> = Vec::new();
    let mut i: usize = 0;
    while i < parts.len()
        invariant
            0 <= i <= parts@.len(),
            pv == parts@.map_values(|s: String| s@),
            out@ == join(pv.take(i as int), sep@),
        decreases parts@.len() - i,
    {
        let ghost before = out@;
        if i > 0 {
            push_str(&mut out, sep);
        }
        push_str(&mut out, parts[i].as_str());
        proof {
            let t = pv.take(i + 1);
            assert(t.drop_last() =~= pv.take(i as int));
            assert(t.last() == parts@[i as int]@);
            if i == 0 {
                assert(t.len() == 1);
                assert(out@ =~= t[0]);
            }
        }
        i = i + 1;
    }
    assert(pv.take(parts@.len() as int) =~= pv);
    string_of(out.as_slice())
}

// ---- Facts for re-formatting -------------------------------------------------------------

/// `s` holds no line break character (`'\n'` or `'\r'`).
pub open spec fn unbroken(s: Seq<char>) -> bool {
    forall|i: int| 0 <= i < s.len() ==> s[i] != '\n' && s[i] != '\r'
}

/// The first index `k >= i` with `lex_le(x, t[k])` (or `t.len()`).
spec fn first_not_below(x: Seq<char>, t: Seq<Seq<char>>, i: int) -> int
    decreases t.len() - i,
{
    if i < 0 || i >= t.len() {
        t.len() as int
    } else if lex_le(x, t[i]) {
        i
    } else {
        first_not_below(x, t, i + 1)
    }
}

proof fn lemma_first_not_below(x: Seq<char>, t: Seq<Seq<char>>, i: int)
    requires
        0 <= i <= t.len(),
    ensures
        i <= first_not_below(x, t, i) <= t.len(),
        forall|k: int| i <= k < first_not_below(x, t, i) ==> !lex_le(x, #[trigger] t[k]),
        first_not_below(x, t, i) < t.len() ==> lex_le(x, t[first_not_below(x, t, i)]),
    decreases t.len() - i,
{
    if i < t.len() && !lex_le(x, t[i]) {
        lemma_first_not_below(x, t, i + 1);
    }
}

/// Sorting what is already sorted changes nothing.
pub proof fn lemma_sort_sorted(s: Seq<Seq<char>>)
    requires
        sorted(s),
    ensures
        sort_seq(s) == s,
    decreases s.len(),
{
    if s.len() > 0 {
        let t = s.drop_last();
        let x = s.last();
        assert(sorted(t));
        lemma_sort_sorted(t);
        lemma_first_not_below(x, t, 0);
        let p = first_not_below(x, t, 0);
        lemma_insert_sorted_at(x, t, p);
        assert forall|k: int| p <= k < t.len() implies t[k] == x by {
            assert(lex_le(s[k], s[s.len() - 1]));
            assert(lex_le(s[p], s[k]) || p == k);
            if p < k {
                lemma_lex_trans(x, t[p], t[k]);
            }
            lemma_lex_antisym(t[k], x);
        }
        assert forall|k: int| 0 <= k < s.len() implies t.insert(p, x)[k] == s[k] by {
            if k < p {
                assert(t.insert(p, x)[k] == t[k]);
            } else if k == p {
                assert(t.insert(p, x)[k] == x);
                if k < t.len() {
                    assert(t[k] == x);
                }
            } else {
                assert(t.insert(p, x)[k] == t[k - 1]);
                assert(t[k - 1] == x);
                if k < t.len() {
                    assert(t[k] == x);
                }
            }
        }
        assert(t.insert(p, x) =~= s);
    }
}

/// What trimming leaves: nothing, or text that starts and ends with a
/// character that is not whitespace; its characters are those of `s`, and
/// trimming it again changes nothing.
pub proof fn lemma_trim_shape(s: Seq<char>)
    ensures
        trim(s).len() == 0 || (!is_ws(trim(s)[0]) && !is_ws(trim(s).last())),
        trim(trim(s)) == trim(s),
        unbroken(s) ==> unbroken(trim(s)),
{
    lemma_ws_run(s, 0);
    let a = ws_run(s, 0);
    let b = trim_start(s);
    lemma_ws_back(b, b.len() as int);
    let c = ws_back(b, b.len() as int);
    let r = trim(s);
    assert(r =~= b.take(c));
    if r.len() > 0 {
        assert(r[0] == s[a]);
        assert(r.last() == b[c - 1]);
        lemma_ws_run(r, 0);
        assert(ws_run(r, 0) == 0);
        assert(trim_start(r) =~= r);
        lemma_ws_back(r, r.len() as int);
        assert(ws_back(r, r.len() as int) == r.len());
        assert(trim_end(r) =~= r);
    } else {
        assert(trim_start(r) =~= r);
        assert(trim_end(r) =~= r);
    }
    if unbroken(s) {
        assert forall|i: int| 0 <= i < r.len() implies r[i] != '\n' && r[i] != '\r' by {
            assert(r[i] == s[a + i]);
        }
    }
}

proof fn lemma_find_nl_prefix(s: Seq<char>, i: int)
    requires
        0 <= i <= s.len(),
        forall|k: int| 0 <= k < find_nl(s, 0) ==> s[k] != '\n',
    ensures
        forall|k: int| i <= k < find_nl(s, i) ==> s[k] != '\n',
        find_nl(s, i) <= s.len(),
    decreases s.len() - i,
{
    if i < s.len() && s[i] != '\n' {
        lemma_find_nl_prefix(s, i + 1);
    }
}

proof fn lemma_find_nl_none_before(s: Seq<char>, i: int)
    requires
        0 <= i <= s.len(),
    ensures
        forall|k: int| i <= k < find_nl(s, i) ==> s[k] != '\n',
        i <= find_nl(s, i) <= s.len(),
    decreases s.len() - i,
{
    if i < s.len() && s[i] != '\n' {
        lemma_find_nl_none_before(s, i + 1);
    }
}

/// Without `'\r'` in `s`, every line of `s` is unbroken.
pub proof fn lemma_lines_unbroken(s: Seq<char>)
    requires
        !s.contains('\r'),
    ensures
        forall|j: int| 0 <= j < lines(s).len() ==> unbroken(#[trigger] lines(s)[j]),
    decreases s.len(),
{
    if s.len() > 0 {
        lemma_find_nl_none_before(s, 0);
        let k = find_nl(s, 0);
        assert forall|i: int| 0 <= i < s.len() implies s[i] != '\r' by {
            if s[i] == '\r' {
                assert(s.contains('\r'));
            }
        }
        if k >= s.len() {
            assert(lines(s) =~= seq![s]);
            assert(unbroken(s));
        } else {
            let first = s.take(k);
            assert(strip_cr(first) == first) by {
                if first.len() > 0 {
                    assert(first.last() == s[k - 1]);
                }
            }
            assert(unbroken(first));
            let rest = s.skip(k + 1);
            assert(!rest.contains('\r')) by {
                if rest.contains('\r') {
                    let w = choose|w: int| 0 <= w < rest.len() && rest[w] == '\r';
                    assert(s[k + 1 + w] == '\r');
                }
            }
            lemma_lines_unbroken(rest);
            let ls = lines(s);
            assert(ls =~= seq![first] + lines(rest));
            assert forall|j: int| 0 <= j < ls.len() implies unbroken(#[trigger] ls[j]) by {
                if j > 0 {
                    assert(ls[j] == lines(rest)[j - 1]);
                }
            }
        }
    }
}

/// The lines of `a`, a `'\n'`, and then `b`: `a` and then the lines of `b`,
/// when `a` holds no line break.
pub proof fn lemma_lines_cons(a: Seq<char>, b: Seq<char>)
    requires
        unbroken(a),
    ensures
        lines(a + seq!['\n'] + b) == seq![a] + lines(b),
{
    let s = a + seq!['\n'] + b;
    assert(s[a.len() as int] == '\n');
    assert forall|i: int| 0 <= i <= a.len() implies find_nl(s, i) == a.len() by {
        lemma_find_nl_at(s, i, a.len() as int);
    }
    assert(find_nl(s, 0) == a.len());
    assert(s.take(a.len() as int) =~= a);
    assert(strip_cr(a) == a) by {
        if a.len() > 0 {
            assert(a.last() != '\r');
        }
    }
    assert(s.skip(a.len() as int + 1) =~= b);
}

proof fn lemma_find_nl_at(s: Seq<char>, i: int, j: int)
    requires
        0 <= i <= j < s.len(),
        s[j] == '\n',
        forall|k: int| i <= k < j ==> s[k] != '\n',
    ensures
        find_nl(s, i) == j,
    decreases j - i,
{
    if i < j {
        lemma_find_nl_at(s, i + 1, j);
    }
}

proof fn lemma_find_first_at(s: Seq<char>, pat: Seq<char>, i: int, k: int)
    requires
        0 <= i <= k,
        k + pat.len() <= s.len(),
        k < s.len(),
        has_prefix(s.skip(k), pat),
        forall|j: int| i <= j < k ==> !has_prefix(#[trigger] s.skip(j), pat),
    ensures
        find_from(s, pat, i) == k,
    decreases k - i,
{
    if i < k {
        lemma_find_first_at(s, pat, i + 1, k);
    }
}

proof fn lemma_find_none(s: Seq<char>, pat: Seq<char>, i: int)
    requires
        0 <= i,
        forall|j: int| i <= j < s.len() ==> !has_prefix(#[trigger] s.skip(j), pat),
    ensures
        find_from(s, pat, i) == s.len(),
    decreases s.len() - i,
{
    if i < s.len() && i + pat.len() <= s.len() {
        lemma_find_none(s, pat, i + 1);
    }
}

/// Only the first occurrence of the pattern is replaced: in `a + pat + b`,
/// where `pat` (not empty) does not start anywhere within `a`, the result is
/// `a + rep + b`; a text where `pat` occurs nowhere is left as it is.
pub proof fn law_replace_first_occurrence(a: Seq<char>, pat: Seq<char>, b: Seq<char>, rep: Seq<char>, t: Seq<char>)
    requires
        pat.len() > 0,
    ensures
        (forall|j: int| 0 <= j < a.len() ==> !has_prefix(#[trigger] (a + pat + b).skip(j), pat))
            ==> replace_first(a + pat + b, pat, rep) == a + rep + b,
        (forall|j: int| 0 <= j < t.len() ==> !has_prefix(#[trigger] t.skip(j), pat)) ==> replace_first(
            t,
            pat,
            rep,
        ) == t,
{
    let s = a + pat + b;
    if forall|j: int| 0 <= j < a.len() ==> !has_prefix(#[trigger] s.skip(j), pat) {
        let k = a.len() as int;
        assert(s.skip(k).subrange(0, pat.len() as int) =~= pat);
        lemma_find_first_at(s, pat, 0, k);
        assert(s.subrange(0, k) =~= a);
        assert(s.skip(k + pat.len()) =~= b);
    }
    if forall|j: int| 0 <= j < t.len() ==> !has_prefix(#[trigger] t.skip(j), pat) {
        lemma_find_none(t, pat, 0);
    }
}

} // verus!
