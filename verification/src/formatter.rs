//! Lightweight TypeScript formatter.
//!
//! Intentionally minimal: generated code should be consistent, not
//! necessarily pretty. It sorts the leading import block (type imports
//! first), collapses runs of blank lines and turns leading tabs into two
//! spaces each.
use vstd::prelude::*;

use crate::text;

verus! {

/// A line that opens or continues the import block.
pub open spec fn is_import_line(l: Seq<char>) -> bool {
    text::has_prefix(l, "import "@) || text::has_prefix(l, "import type "@)
}

/// The index of the first import line at or after `i` (or `ls.len()`).
pub open spec fn first_import(ls: Seq<Seq<char>>, i: int) -> int
    decreases ls.len() - i,
{
    if i < 0 || i >= ls.len() {
        ls.len() as int
    } else if is_import_line(ls[i]) {
        i
    } else {
        first_import(ls, i + 1)
    }
}

/// The index of the first line at or after `i` that is neither an import
/// nor blank (or `ls.len()`): the end of the import block.
pub open spec fn import_block_end(ls: Seq<Seq<char>>, i: int) -> int
    decreases ls.len() - i,
{
    if i < 0 || i >= ls.len() {
        ls.len() as int
    } else if !is_import_line(ls[i]) && !text::blank(ls[i]) {
        i
    } else {
        import_block_end(ls, i + 1)
    }
}

/// The trimmed `import type` lines of `ls`, in order.
pub open spec fn type_imports(ls: Seq<Seq<char>>) -> Seq<Seq<char>>
    decreases ls.len(),
{
    if ls.len() == 0 {
        seq![]
    } else {
        let t = text::trim(ls.last());
        let rest = type_imports(ls.drop_last());
        if t.len() > 0 && text::has_prefix(t, "import type "@) {
            rest.push(t)
        } else {
            rest
        }
    }
}

/// The trimmed value `import` lines of `ls` (not `import type`), in order.
pub open spec fn value_imports(ls: Seq<Seq<char>>) -> Seq<Seq<char>>
    decreases ls.len(),
{
    if ls.len() == 0 {
        seq![]
    } else {
        let t = text::trim(ls.last());
        let rest = value_imports(ls.drop_last());
        if t.len() > 0 && !text::has_prefix(t, "import type "@) && text::has_prefix(t, "import "@) {
            rest.push(t)
        } else {
            rest
        }
    }
}

/// The import block `block` rewritten: sorted type imports, then sorted
/// value imports, then empty lines for the slots that are left.
pub open spec fn sorted_block(block: Seq<Seq<char>>) -> Seq<Seq<char>> {
    let sorted = text::sort_seq(type_imports(block)) + text::sort_seq(value_imports(block));
    Seq::new(
        block.len(),
        |i: int|
            if i < sorted.len() {
                sorted[i]
            } else {
                Seq::<char>::empty()
            },
    )
}

/// The lines after the import block at the top has been sorted.
pub open spec fn spec_sort_imports(ls: Seq<Seq<char>>) -> Seq<Seq<char>> {
    let start = first_import(ls, 0);
    if start >= ls.len() {
        ls
    } else {
        let end = import_block_end(ls, start);
        ls.take(start) + sorted_block(ls.subrange(start, end)) + ls.skip(end)
    }
}

/// `n` spaces.
pub open spec fn spaces(n: nat) -> Seq<char> {
    Seq::new(n, |i: int| ' ')
}

/// The number of leading tabs of `l`.
pub open spec fn tab_run(l: Seq<char>, i: int) -> int
    decreases l.len() - i,
{
    if 0 <= i < l.len() && l[i] == '\t' {
        tab_run(l, i + 1)
    } else {
        i
    }
}

/// A line with each leading tab replaced by two spaces.
pub open spec fn indent_line(l: Seq<char>) -> Seq<char> {
    let k = tab_run(l, 0);
    spaces((2 * k) as nat) + l.skip(k)
}

/// The output for the lines `ls`, given whether the line before them was
/// blank: each line with its tabs expanded and a `'\n'`, where a blank line
/// that follows a blank line is dropped.
pub open spec fn render(ls: Seq<Seq<char>>, prev_blank: bool) -> Seq<char>
    decreases ls.len(),
{
    if ls.len() == 0 {
        seq![]
    } else {
        let l = ls[0];
        if text::blank(l) && prev_blank {
            render(ls.drop_first(), prev_blank)
        } else {
            indent_line(l) + seq!['\n'] + render(ls.drop_first(), text::blank(l))
        }
    }
}

/// What `format` produces for `input`.
pub open spec fn spec_format(input: Seq<char>) -> Seq<char> {
    render(spec_sort_imports(text::lines(input)), false)
}

/// Whether `l` starts with `"import "` or `"import type "`.
fn is_import_exec(l: &[char], imp: &[char], imp_type: &[char]) -> (r: bool)
    requires
        imp@ == "import "@,
        imp_type@ == "import type "@,
    ensures
        r == is_import_line(l@),
{
    text::starts_with(l, imp) || text::starts_with(l, imp_type)
}

proof fn lemma_type_value_len(ls: Seq<Seq<char>>)
    ensures
        type_imports(ls).len() + value_imports(ls).len() <= ls.len(),
    decreases ls.len(),
{
    if ls.len() > 0 {
        lemma_type_value_len(ls.drop_last());
    }
}

/// Sorts the import block at the top of `lines`: from the first line that
/// starts with `import ` up to the first line that is neither an import nor
/// blank, the trimmed `import type` lines come first in ascending order, then
/// the other `import` lines in ascending order, and the slots left over become
/// empty lines (which `format` then collapses).
pub fn sort_imports(lines: &mut Vec<Vec<char>>)
    ensures
        text::views(final(lines)@) == spec_sort_imports(text::views(old(lines)@)),
{
    let imp = text::chars_of("import ");
    let imp_type = text::chars_of("import type ");
    let ghost ls = text::views(lines@);
    let n = lines.len();
    let mut start: usize = 0;
    while start < n && !is_import_exec(lines[start].as_slice(), imp.as_slice(), imp_type.as_slice())
        invariant
            n == lines.len(),
            ls == text::views(lines@),
            0 <= start <= n,
            first_import(ls, start as int) == first_import(ls, 0),
            imp@ == "import "@,
            imp_type@ == "import type "@,
        decreases n - start,
    {
        start = start + 1;
    }
    if start == n {
        return;
    }
    let mut end: usize = start;
    while end < n && (is_import_exec(lines[end].as_slice(), imp.as_slice(), imp_type.as_slice())
        || text::is_blank(lines[end].as_slice()))
        invariant
            n == lines.len(),
            ls == text::views(lines@),
            start <= end <= n,
            import_block_end(ls, end as int) == import_block_end(ls, start as int),
            imp@ == "import "@,
            imp_type@ == "import type "@,
        decreases n - end,
    {
        end = end + 1;
    }
    let mut types: Vec<Vec<char>> = Vec::new();
    let mut values: Vec<Vec<char>> = Vec::new();
    let mut k: usize = start;
    while k < end
        invariant
            n == lines.len(),
            ls == text::views(lines@),
            start <= k <= end <= n,
            text::views(types@) == type_imports(ls.subrange(start as int, k as int)),
            text::views(values@) == value_imports(ls.subrange(start as int, k as int)),
            imp@ == "import "@,
            imp_type@ == "import type "@,
        decreases end - k,
    {
        let t = text::trimmed(lines[k].as_slice());
        let ghost sub = ls.subrange(start as int, k + 1);
        proof {
            assert(sub.drop_last() =~= ls.subrange(start as int, k as int));
            assert(sub.last() == ls[k as int]);
        }
        if t.len() > 0 {
            if text::starts_with(t.as_slice(), imp_type.as_slice()) {
                let ghost tv = t@;
                types.push(t);
                assert(text::views(types@) =~= type_imports(sub));
            } else if text::starts_with(t.as_slice(), imp.as_slice()) {
                let ghost tv = t@;
                values.push(t);
                assert(text::views(values@) =~= value_imports(sub));
            }
        }
        k = k + 1;
    }
    let mut sorted = text::sort_lines(types);
    let sv = text::sort_lines(values);
    let ghost block = ls.subrange(start as int, end as int);
    let ghost target = text::sort_seq(type_imports(block)) + text::sort_seq(value_imports(block));
    let mut j: usize = 0;
    while j < sv.len()
        invariant
            text::views(sorted@) == text::sort_seq(type_imports(block)) + text::views(sv@).take(
                j as int,
            ),
            0 <= j <= sv.len(),
        decreases sv.len() - j,
    {
        let x = sv[j].clone();
        let ghost prev = text::views(sorted@);
        sorted.push(x);
        assert(text::views(sorted@) =~= prev.push(x@));
        assert(text::views(sv@).take(j + 1) =~= text::views(sv@).take(j as int).push(sv@[j as int]@));
        j = j + 1;
    }
    assert(text::views(sv@).take(sv.len() as int) =~= text::views(sv@));
    assert(text::views(sorted@) == target);
    let ghost goal = ls.take(start as int) + sorted_block(block) + ls.skip(end as int);
    proof {
        lemma_type_value_len(block);
        text::lemma_sort_seq(type_imports(block));
        text::lemma_sort_seq(value_imports(block));
    }
    let mut i: usize = start;
    while i < end
        invariant
            n == lines.len(),
            start <= i <= end <= n,
            text::views(sorted@) == target,
            target.len() <= end - start,
            goal.len() == n,
            forall|m: int| 0 <= m < i ==> text::views(lines@)[m] == goal[m],
            forall|m: int| i <= m < n ==> text::views(lines@)[m] == ls[m],
            forall|m: int| end <= m < n ==> goal[m] == ls[m],
            forall|m: int| 0 <= m < start ==> goal[m] == ls[m],
            forall|m: int|
                start <= m < end ==> goal[m] == (if m - start < target.len() {
                    target[m - start]
                } else {
                    Seq::<char>::empty()
                }),
        decreases end - i,
    {
        if i - start < sorted.len() {
            let x = sorted[i - start].clone();
            lines.set(i, x);
        } else {
            lines.set(i, Vec::new());
        }
        i = i + 1;
    }
    assert(text::views(lines@) =~= goal);
}

proof fn lemma_tab_run(l: Seq<char>, i: int)
    requires
        0 <= i <= l.len(),
    ensures
        i <= tab_run(l, i) <= l.len(),
    decreases l.len() - i,
{
    if i < l.len() && l[i] == '\t' {
        lemma_tab_run(l, i + 1);
    }
}

/// Formats generated TypeScript: sorts the leading import block (see
/// `sort_imports`), drops every blank line that follows a blank line, and
/// writes each line with its leading tabs as two spaces each and a final
/// `'\n'`.
pub fn format(input: &str) -> (r: String)
    ensures
        r@ == spec_format(input@),
{
    let cs = text::chars_of(input);
    let mut ls = text::split_lines(cs.as_slice());
    sort_imports(&mut ls);
    let ghost all = text::views(ls@);
    let mut out: Vec<char> = Vec::new();
    let mut prev_blank = false;
    let mut i: usize = 0;
    assert(all.skip(0) =~= all);
    while i < ls.len()
        invariant
            0 <= i <= ls.len(),
            all == text::views(ls@),
            all == spec_sort_imports(text::lines(input@)),
            out@ + render(all.skip(i as int), prev_blank) == render(all, false),
        decreases ls.len() - i,
    {
        let line = ls[i].as_slice();
        let ghost rest = all.skip(i as int);
        proof {
            assert(rest[0] == line@);
            assert(rest.drop_first() =~= all.skip(i + 1));
        }
        let is_blank = text::is_blank(line);
        if is_blank && prev_blank {
            i = i + 1;
            continue;
        }
        let mut k: usize = 0;
        while k < line.len() && line[k] == '\t'
            invariant
                0 <= k <= line.len(),
                tab_run(line@, k as int) == tab_run(line@, 0),
            decreases line.len() - k,
        {
            k = k + 1;
        }
        let ghost before = out@;
        let mut m: usize = 0;
        while m < k
            invariant
                0 <= m <= k <= line.len(),
                out@ == before + spaces((2 * m) as nat),
            decreases k - m,
        {
            out.push(' ');
            out.push(' ');
            assert(out@ =~= before + spaces((2 * (m + 1)) as nat));
            m = m + 1;
        }
        let mut p: usize = k;
        while p < line.len()
            invariant
                k <= p <= line.len(),
                out@ == before + spaces((2 * k) as nat) + line@.subrange(k as int, p as int),
            decreases line.len() - p,
        {
            out.push(line[p]);
            p = p + 1;
        }
        out.push('\n');
        proof {
            assert(line@.subrange(k as int, line.len() as int) =~= line@.skip(k as int));
            assert(out@ =~= before + indent_line(line@) + seq!['\n']);
        }
        prev_blank = is_blank;
        i = i + 1;
    }
    text::string_of(out.as_slice())
}

/// The lines that `render` writes: a blank line right after a blank line
/// is dropped.
pub open spec fn kept_lines(ls: Seq<Seq<char>>, prev_blank: bool) -> Seq<Seq<char>>
    decreases ls.len(),
{
    if ls.len() == 0 {
        seq![]
    } else if text::blank(ls[0]) && prev_blank {
        kept_lines(ls.drop_first(), prev_blank)
    } else {
        seq![ls[0]] + kept_lines(ls.drop_first(), text::blank(ls[0]))
    }
}

/// Each line written with its tabs expanded and a `'\n'`.
pub open spec fn joined(ls: Seq<Seq<char>>) -> Seq<char>
    decreases ls.len(),
{
    if ls.len() == 0 {
        seq![]
    } else {
        indent_line(ls[0]) + seq!['\n'] + joined(ls.drop_first())
    }
}

proof fn lemma_kept_lines(ls: Seq<Seq<char>>, prev_blank: bool)
    ensures
        render(ls, prev_blank) == joined(kept_lines(ls, prev_blank)),
        prev_blank && kept_lines(ls, prev_blank).len() > 0 ==> !text::blank(kept_lines(ls, prev_blank)[0]),
        forall|i: int|
            0 <= i < kept_lines(ls, prev_blank).len() - 1 ==> !(text::blank(
                #[trigger] kept_lines(ls, prev_blank)[i],
            ) && text::blank(kept_lines(ls, prev_blank)[i + 1])),
    decreases ls.len(),
{
    if ls.len() > 0 {
        let rest = ls.drop_first();
        if text::blank(ls[0]) && prev_blank {
            lemma_kept_lines(rest, prev_blank);
        } else {
            let b = text::blank(ls[0]);
            lemma_kept_lines(rest, b);
            let k = kept_lines(rest, b);
            let all = seq![ls[0]] + k;
            assert(all.drop_first() =~= k);
            assert(all[0] == ls[0]);
            assert forall|i: int| 0 <= i < all.len() - 1 implies !(text::blank(#[trigger] all[i])
                && text::blank(all[i + 1])) by {
                if i > 0 {
                    assert(all[i] == k[i - 1] && all[i + 1] == k[i]);
                } else {
                    assert(all[1] == k[0]);
                }
            }
        }
    }
}

/// A line written by `format` never starts with a tab.
proof fn lemma_indent_no_tab(l: Seq<char>)
    ensures
        !text::has_prefix(indent_line(l), "\t"@),
{
    reveal_strlit("\t");
    lemma_tab_run(l, 0);
    let k = tab_run(l, 0);
    let out = indent_line(l);
    if out.len() > 0 {
        if k > 0 {
            assert(out[0] == ' ');
        } else {
            assert(out[0] == l[0]);
            if l[0] == '\t' {
                lemma_tab_run(l, 1);
            }
        }
        assert(out.subrange(0, 1)[0] == out[0]);
        assert("\t"@.len() == 1 && "\t"@[0] == '\t');
    }
}

/// `format` writes the lines of its input (after sorting the import block),
/// each ending in `'\n'`, with no two blank lines in a row, and with leading
/// tabs turned into spaces so that no line starts with a tab.
pub proof fn law_format_collapses_blank_lines(input: Seq<char>)
    ensures
        spec_format(input) == joined(kept_lines(spec_sort_imports(text::lines(input)), false)),
        forall|i: int|
            0 <= i < kept_lines(spec_sort_imports(text::lines(input)), false).len() - 1 ==> !(
            text::blank(#[trigger] kept_lines(spec_sort_imports(text::lines(input)), false)[i])
                && text::blank(kept_lines(spec_sort_imports(text::lines(input)), false)[i + 1])),
        forall|l: Seq<char>| !text::has_prefix(#[trigger] indent_line(l), "\t"@),
{
    lemma_kept_lines(spec_sort_imports(text::lines(input)), false);
    assert forall|l: Seq<char>| !text::has_prefix(#[trigger] indent_line(l), "\t"@) by {
        lemma_indent_no_tab(l);
    }
}

proof fn lemma_block_end(ls: Seq<Seq<char>>, i: int)
    requires
        0 <= i <= ls.len(),
    ensures
        i <= import_block_end(ls, i) <= ls.len(),
    decreases ls.len() - i,
{
    if i < ls.len() && !(!is_import_line(ls[i]) && !text::blank(ls[i])) {
        lemma_block_end(ls, i + 1);
    }
}

proof fn lemma_first_import(ls: Seq<Seq<char>>, i: int)
    requires
        0 <= i <= ls.len(),
    ensures
        i <= first_import(ls, i) <= ls.len(),
    decreases ls.len() - i,
{
    if i < ls.len() && !is_import_line(ls[i]) {
        lemma_first_import(ls, i + 1);
    }
}

/// Import sorting rearranges the leading import block: where it starts,
/// the `import type` lines come first in ascending order, then the other
/// `import` lines in ascending order, and no import is lost or added.
pub proof fn law_import_block_sorted(ls: Seq<Seq<char>>)
    ensures
        first_import(ls, 0) < ls.len() ==> {
            let start = first_import(ls, 0);
            let block = ls.subrange(start, import_block_end(ls, start));
            let ts = text::sort_seq(type_imports(block));
            let vs = text::sort_seq(value_imports(block));
            &&& spec_sort_imports(ls).subrange(start, start + ts.len() + vs.len()) == ts + vs
            &&& text::sorted(ts)
            &&& text::sorted(vs)
            &&& ts.to_multiset() == type_imports(block).to_multiset()
            &&& vs.to_multiset() == value_imports(block).to_multiset()
        },
{
    lemma_first_import(ls, 0);
    let start = first_import(ls, 0);
    if start < ls.len() {
        lemma_block_end(ls, start);
        let end = import_block_end(ls, start);
        let block = ls.subrange(start, end);
        let t = type_imports(block);
        let v = value_imports(block);
        text::lemma_sort_seq(t);
        text::lemma_sort_seq(v);
        lemma_type_value_len(block);
        let ts = text::sort_seq(t);
        let vs = text::sort_seq(v);
        let out = spec_sort_imports(ls);
        let sb = sorted_block(block);
        assert(out == ls.take(start) + sb + ls.skip(end));
        assert forall|k: int| 0 <= k < ts.len() + vs.len() implies out.subrange(
            start,
            start + ts.len() + vs.len(),
        )[k] == (ts + vs)[k] by {
            assert(out[start + k] == sb[k]);
        }
        assert(out.subrange(start, start + ts.len() + vs.len()) =~= ts + vs);
    }
}

// ---- Formatting twice ------------------------------------------------------------------

/// No line of `ls` opens the import block.
pub open spec fn no_imports(ls: Seq<Seq<char>>) -> bool {
    forall|i: int| 0 <= i < ls.len() ==> !is_import_line(#[trigger] ls[i])
}

/// No line of `ls` holds a line break.
pub open spec fn all_unbroken(ls: Seq<Seq<char>>) -> bool {
    forall|i: int| 0 <= i < ls.len() ==> text::unbroken(#[trigger] ls[i])
}

/// The lines with their leading tabs expanded.
pub open spec fn indented(ls: Seq<Seq<char>>) -> Seq<Seq<char>> {
    ls.map_values(|l: Seq<char>| indent_line(l))
}

/// Whether, after `render` has gone through `ls`, the last line it wrote was
/// blank (`p` when it wrote none).
pub open spec fn kept_state(ls: Seq<Seq<char>>, p: bool) -> bool
    decreases ls.len(),
{
    if ls.len() == 0 {
        p
    } else if text::blank(ls[0]) && p {
        kept_state(ls.drop_first(), p)
    } else {
        kept_state(ls.drop_first(), text::blank(ls[0]))
    }
}

proof fn lemma_kept_add(a: Seq<Seq<char>>, b: Seq<Seq<char>>, p: bool)
    ensures
        kept_lines(a + b, p) == kept_lines(a, p) + kept_lines(b, kept_state(a, p)),
    decreases a.len(),
{
    if a.len() == 0 {
        assert(a + b =~= b);
        assert(kept_lines(a, p) + kept_lines(b, p) =~= kept_lines(b, p));
    } else {
        assert((a + b)[0] == a[0]);
        assert((a + b).drop_first() =~= a.drop_first() + b);
        if text::blank(a[0]) && p {
            lemma_kept_add(a.drop_first(), b, p);
        } else {
            lemma_kept_add(a.drop_first(), b, text::blank(a[0]));
            let k1 = kept_lines(a.drop_first(), text::blank(a[0]));
            let k2 = kept_lines(b, kept_state(a, p));
            assert(seq![a[0]] + (k1 + k2) =~= (seq![a[0]] + k1) + k2);
        }
    }
}

proof fn lemma_kept_nonblank(ls: Seq<Seq<char>>, p: bool)
    requires
        forall|i: int| 0 <= i < ls.len() ==> !text::blank(#[trigger] ls[i]),
    ensures
        kept_lines(ls, p) == ls,
        ls.len() > 0 ==> !kept_state(ls, p),
    decreases ls.len(),
{
    if ls.len() > 0 {
        let r = ls.drop_first();
        assert forall|i: int| 0 <= i < r.len() implies !text::blank(#[trigger] r[i]) by {
            assert(r[i] == ls[i + 1]);
        }
        assert(!text::blank(ls[0]));
        lemma_kept_nonblank(r, false);
        assert(seq![ls[0]] + r =~= ls);
    }
}

proof fn lemma_kept_blanks(ls: Seq<Seq<char>>, p: bool)
    requires
        forall|i: int| 0 <= i < ls.len() ==> text::blank(#[trigger] ls[i]),
    ensures
        kept_lines(ls, p) == (if !p && ls.len() > 0 {
            seq![ls[0]]
        } else {
            Seq::<Seq<char>>::empty()
        }),
        kept_state(ls, p) == (p || ls.len() > 0),
    decreases ls.len(),
{
    if ls.len() > 0 {
        let r = ls.drop_first();
        assert forall|i: int| 0 <= i < r.len() implies text::blank(#[trigger] r[i]) by {
            assert(r[i] == ls[i + 1]);
        }
        assert(text::blank(ls[0]));
        lemma_kept_blanks(r, true);
        if !p {
            assert(seq![ls[0]] + Seq::<Seq<char>>::empty() =~= seq![ls[0]]);
        } else {
            lemma_kept_blanks(r, p);
        }
    }
}

proof fn lemma_kept_from(ls: Seq<Seq<char>>, p: bool)
    ensures
        forall|j: int| 0 <= j < kept_lines(ls, p).len() ==> ls.contains(#[trigger] kept_lines(ls, p)[j]),
    decreases ls.len(),
{
    if ls.len() > 0 {
        let r = ls.drop_first();
        let b = if text::blank(ls[0]) && p {
            p
        } else {
            text::blank(ls[0])
        };
        lemma_kept_from(r, b);
        let k = kept_lines(ls, p);
        assert forall|j: int| 0 <= j < k.len() implies ls.contains(#[trigger] k[j]) by {
            if text::blank(ls[0]) && p {
                let w = choose|w: int| 0 <= w < r.len() && r[w] == k[j];
                assert(ls[w + 1] == k[j]);
            } else if j == 0 {
                assert(ls[0] == k[0]);
            } else {
                let kr = kept_lines(r, b);
                assert(k[j] == kr[j - 1]);
                let w = choose|w: int| 0 <= w < r.len() && r[w] == kr[j - 1];
                assert(ls[w + 1] == k[j]);
            }
        }
    }
}

proof fn lemma_kept_identity(ls: Seq<Seq<char>>, p: bool)
    requires
        forall|i: int| 0 <= i < ls.len() - 1 ==> !(text::blank(#[trigger] ls[i]) && text::blank(ls[i + 1])),
        p && ls.len() > 0 ==> !text::blank(ls[0]),
    ensures
        kept_lines(ls, p) == ls,
    decreases ls.len(),
{
    if ls.len() > 0 {
        let r = ls.drop_first();
        assert forall|i: int| 0 <= i < r.len() - 1 implies !(text::blank(#[trigger] r[i]) && text::blank(
            r[i + 1],
        )) by {
            assert(r[i] == ls[i + 1] && r[i + 1] == ls[i + 2]);
        }
        if r.len() > 0 {
            assert(r[0] == ls[1]);
        }
        lemma_kept_identity(r, text::blank(ls[0]));
        assert(seq![ls[0]] + r =~= ls);
    }
}

proof fn lemma_tab_run_tabs(l: Seq<char>, i: int)
    requires
        0 <= i <= l.len(),
    ensures
        forall|k: int| i <= k < tab_run(l, i) ==> l[k] == '\t',
        i <= tab_run(l, i) <= l.len(),
        tab_run(l, i) < l.len() ==> l[tab_run(l, i)] != '\t',
    decreases l.len() - i,
{
    if i < l.len() && l[i] == '\t' {
        lemma_tab_run_tabs(l, i + 1);
    }
}

/// What expanding leading tabs keeps: blankness, being an import line and
/// being unbroken; a line without a leading tab is left as it is, and
/// expanding twice is expanding once.
proof fn lemma_indent_facts(l: Seq<char>)
    ensures
        (l.len() == 0 || l[0] != '\t') ==> indent_line(l) == l,
        indent_line(indent_line(l)) == indent_line(l),
        text::blank(indent_line(l)) == text::blank(l),
        is_import_line(indent_line(l)) == is_import_line(l),
        text::unbroken(l) ==> text::unbroken(indent_line(l)),
{
    lemma_tab_run_tabs(l, 0);
    let k = tab_run(l, 0);
    let o = indent_line(l);
    let sp = spaces((2 * k) as nat);
    assert(o == sp + l.skip(k));
    if l.len() == 0 || l[0] != '\t' {
        assert(k == 0);
        assert(o =~= l);
    }
    // o never starts with a tab
    let k2 = tab_run(o, 0);
    lemma_tab_run_tabs(o, 0);
    if o.len() > 0 {
        if k > 0 {
            assert(o[0] == ' ');
        } else {
            assert(o[0] == l[0]);
        }
    }
    assert(k2 == 0);
    assert(indent_line(o) =~= o);
    // blankness
    assert(text::blank(o) == text::blank(l)) by {
        if text::blank(l) {
            assert forall|i: int| 0 <= i < o.len() implies text::is_ws(#[trigger] o[i]) by {
                if i >= sp.len() {
                    assert(o[i] == l[k + i - sp.len()]);
                }
            }
        }
        if text::blank(o) {
            assert forall|i: int| 0 <= i < l.len() implies text::is_ws(#[trigger] l[i]) by {
                if i >= k {
                    assert(o[sp.len() + i - k] == l[i]);
                }
            }
        }
    }
    // import lines
    reveal_strlit("import ");
    reveal_strlit("import type ");
    if k > 0 {
        assert(o[0] == ' ');
        assert(l[0] == '\t');
        assert(!text::has_prefix(o, "import "@)) by {
            if text::has_prefix(o, "import "@) {
                assert(o.subrange(0, 7)[0] == o[0]);
            }
        }
        assert(!text::has_prefix(o, "import type "@)) by {
            if text::has_prefix(o, "import type "@) {
                assert(o.subrange(0, 12)[0] == o[0]);
            }
        }
        assert(!text::has_prefix(l, "import "@)) by {
            if text::has_prefix(l, "import "@) {
                assert(l.subrange(0, 7)[0] == l[0]);
            }
        }
        assert(!text::has_prefix(l, "import type "@)) by {
            if text::has_prefix(l, "import type "@) {
                assert(l.subrange(0, 12)[0] == l[0]);
            }
        }
    }
    if text::unbroken(l) {
        assert forall|i: int| 0 <= i < o.len() implies o[i] != '\n' && o[i] != '\r' by {
            if i >= sp.len() {
                assert(o[i] == l[k + i - sp.len()]);
            }
        }
    }
}

proof fn lemma_joined_lines(ls: Seq<Seq<char>>)
    requires
        all_unbroken(ls),
    ensures
        text::lines(joined(ls)) == indented(ls),
    decreases ls.len(),
{
    if ls.len() == 0 {
        assert(indented(ls) =~= Seq::<Seq<char>>::empty());
    } else {
        let r = ls.drop_first();
        assert(all_unbroken(r)) by {
            assert forall|i: int| 0 <= i < r.len() implies text::unbroken(#[trigger] r[i]) by {
                assert(r[i] == ls[i + 1]);
            }
        }
        lemma_joined_lines(r);
        assert(text::unbroken(ls[0]));
        lemma_indent_facts(ls[0]);
        text::lemma_lines_cons(indent_line(ls[0]), joined(r));
        assert(indented(ls) =~= seq![indent_line(ls[0])] + indented(r));
    }
}

proof fn lemma_joined_indented(ls: Seq<Seq<char>>)
    ensures
        joined(indented(ls)) == joined(ls),
    decreases ls.len(),
{
    if ls.len() > 0 {
        let r = ls.drop_first();
        lemma_joined_indented(r);
        lemma_indent_facts(ls[0]);
        assert(indented(ls).drop_first() =~= indented(r));
        assert(indented(ls)[0] == indent_line(ls[0]));
    }
}

proof fn lemma_first_import_scan(ls: Seq<Seq<char>>, i: int)
    requires
        0 <= i <= ls.len(),
    ensures
        i <= first_import(ls, i) <= ls.len(),
        forall|k: int| i <= k < first_import(ls, i) ==> !is_import_line(#[trigger] ls[k]),
        first_import(ls, i) < ls.len() ==> is_import_line(ls[first_import(ls, i)]),
    decreases ls.len() - i,
{
    if i < ls.len() && !is_import_line(ls[i]) {
        lemma_first_import_scan(ls, i + 1);
    }
}

proof fn lemma_first_import_at(ls: Seq<Seq<char>>, i: int, j: int)
    requires
        0 <= i <= j <= ls.len(),
        forall|k: int| i <= k < j ==> !is_import_line(#[trigger] ls[k]),
        j < ls.len() ==> is_import_line(ls[j]),
    ensures
        first_import(ls, i) == j,
    decreases j - i,
{
    if i < j {
        assert(!is_import_line(ls[i]));
        lemma_first_import_at(ls, i + 1, j);
    }
}

proof fn lemma_block_end_scan(ls: Seq<Seq<char>>, i: int)
    requires
        0 <= i <= ls.len(),
    ensures
        i <= import_block_end(ls, i) <= ls.len(),
        import_block_end(ls, i) < ls.len() ==> !is_import_line(ls[import_block_end(ls, i)])
            && !text::blank(ls[import_block_end(ls, i)]),
    decreases ls.len() - i,
{
    if i < ls.len() && !(!is_import_line(ls[i]) && !text::blank(ls[i])) {
        lemma_block_end_scan(ls, i + 1);
    }
}

proof fn lemma_block_end_at(ls: Seq<Seq<char>>, i: int, j: int)
    requires
        0 <= i <= j <= ls.len(),
        forall|k: int| i <= k < j ==> is_import_line(#[trigger] ls[k]) || text::blank(ls[k]),
        j < ls.len() ==> !is_import_line(ls[j]) && !text::blank(ls[j]),
    ensures
        import_block_end(ls, i) == j,
    decreases j - i,
{
    if i < j {
        assert(is_import_line(ls[i]) || text::blank(ls[i]));
        lemma_block_end_at(ls, i + 1, j);
    }
}

proof fn lemma_imports_add(a: Seq<Seq<char>>, b: Seq<Seq<char>>)
    ensures
        type_imports(a + b) == type_imports(a) + type_imports(b),
        value_imports(a + b) == value_imports(a) + value_imports(b),
    decreases b.len(),
{
    if b.len() == 0 {
        assert(a + b =~= a);
        assert(type_imports(a) + type_imports(b) =~= type_imports(a));
        assert(value_imports(a) + value_imports(b) =~= value_imports(a));
    } else {
        lemma_imports_add(a, b.drop_last());
        assert((a + b).drop_last() =~= a + b.drop_last());
        assert((a + b).last() == b.last());
        let ta = type_imports(a);
        let tb = type_imports(b.drop_last());
        let va = value_imports(a);
        let vb = value_imports(b.drop_last());
        let x = text::trim(b.last());
        assert((ta + tb).push(x) =~= ta + tb.push(x));
        assert((va + vb).push(x) =~= va + vb.push(x));
    }
}

/// A line as the import sorting leaves a type import.
pub open spec fn type_shaped(y: Seq<char>) -> bool {
    &&& y.len() > 0
    &&& text::trim(y) == y
    &&& text::has_prefix(y, "import type "@)
}

/// A line as the import sorting leaves a value import.
pub open spec fn value_shaped(y: Seq<char>) -> bool {
    &&& y.len() > 0
    &&& text::trim(y) == y
    &&& text::has_prefix(y, "import "@)
    &&& !text::has_prefix(y, "import type "@)
}

proof fn lemma_import_elems(ls: Seq<Seq<char>>)
    ensures
        forall|j: int| 0 <= j < type_imports(ls).len() ==> type_shaped(#[trigger] type_imports(ls)[j]),
        forall|j: int| 0 <= j < value_imports(ls).len() ==> value_shaped(#[trigger] value_imports(ls)[j]),
        all_unbroken(ls) ==> all_unbroken(type_imports(ls)) && all_unbroken(value_imports(ls)),
    decreases ls.len(),
{
    if ls.len() > 0 {
        let r = ls.drop_last();
        lemma_import_elems(r);
        text::lemma_trim_shape(ls.last());
        if all_unbroken(ls) {
            assert(all_unbroken(r)) by {
                assert forall|i: int| 0 <= i < r.len() implies text::unbroken(#[trigger] r[i]) by {
                    assert(r[i] == ls[i]);
                }
            }
            assert(text::unbroken(ls[ls.len() - 1]));
        }
        let t1 = type_imports(ls);
        let v1 = value_imports(ls);
        assert forall|j: int| 0 <= j < t1.len() implies type_shaped(#[trigger] t1[j]) by {
            if j < type_imports(r).len() {
                assert(t1[j] == type_imports(r)[j]);
            }
        }
        assert forall|j: int| 0 <= j < v1.len() implies value_shaped(#[trigger] v1[j]) by {
            if j < value_imports(r).len() {
                assert(v1[j] == value_imports(r)[j]);
            }
        }
        if all_unbroken(ls) {
            assert forall|j: int| 0 <= j < t1.len() implies text::unbroken(#[trigger] t1[j]) by {
                if j < type_imports(r).len() {
                    assert(t1[j] == type_imports(r)[j]);
                }
            }
            assert forall|j: int| 0 <= j < v1.len() implies text::unbroken(#[trigger] v1[j]) by {
                if j < value_imports(r).len() {
                    assert(v1[j] == value_imports(r)[j]);
                }
            }
        }
    }
}

proof fn lemma_imports_of_shaped(ts: Seq<Seq<char>>, vs: Seq<Seq<char>>)
    requires
        forall|j: int| 0 <= j < ts.len() ==> type_shaped(#[trigger] ts[j]),
        forall|j: int| 0 <= j < vs.len() ==> value_shaped(#[trigger] vs[j]),
    ensures
        type_imports(ts) == ts,
        value_imports(ts) == Seq::<Seq<char>>::empty(),
        type_imports(vs) == Seq::<Seq<char>>::empty(),
        value_imports(vs) == vs,
    decreases ts.len() + vs.len(),
{
    if ts.len() > 0 {
        let r = ts.drop_last();
        assert forall|j: int| 0 <= j < r.len() implies type_shaped(#[trigger] r[j]) by {
            assert(r[j] == ts[j]);
        }
        lemma_imports_of_shaped(r, Seq::<Seq<char>>::empty());
        assert(type_shaped(ts[ts.len() - 1]));
        assert(r.push(ts.last()) =~= ts);
    }
    if vs.len() > 0 {
        let r = vs.drop_last();
        assert forall|j: int| 0 <= j < r.len() implies value_shaped(#[trigger] r[j]) by {
            assert(r[j] == vs[j]);
        }
        lemma_imports_of_shaped(Seq::<Seq<char>>::empty(), r);
        assert(value_shaped(vs[vs.len() - 1]));
        assert(r.push(vs.last()) =~= vs);
    }
}

proof fn lemma_imports_of_empties(e: Seq<Seq<char>>)
    requires
        forall|j: int| 0 <= j < e.len() ==> (#[trigger] e[j]).len() == 0,
    ensures
        type_imports(e) == Seq::<Seq<char>>::empty(),
        value_imports(e) == Seq::<Seq<char>>::empty(),
    decreases e.len(),
{
    if e.len() > 0 {
        let r = e.drop_last();
        assert forall|j: int| 0 <= j < r.len() implies (#[trigger] r[j]).len() == 0 by {
            assert(r[j] == e[j]);
        }
        lemma_imports_of_empties(r);
        text::lemma_trim_shape(e.last());
        assert(e.last().len() == 0);
        assert(text::trim(e.last()).len() == 0) by {
            text::law_blank_iff_trim_empty(e.last());
        }
    }
}

proof fn lemma_sorted_shaped(s: Seq<Seq<char>>, type_lines: bool)
    requires
        forall|j: int|
            0 <= j < s.len() ==> if type_lines {
                type_shaped(#[trigger] s[j])
            } else {
                value_shaped(s[j])
            },
        all_unbroken(s),
    ensures
        forall|j: int|
            0 <= j < text::sort_seq(s).len() ==> if type_lines {
                type_shaped(#[trigger] text::sort_seq(s)[j])
            } else {
                value_shaped(text::sort_seq(s)[j])
            },
        all_unbroken(text::sort_seq(s)),
        text::sorted(text::sort_seq(s)),
        text::sort_seq(s).len() == s.len(),
{
    broadcast use vstd::seq_lib::group_to_multiset_ensures;

    text::lemma_sort_seq(s);
    let r = text::sort_seq(s);
    assert forall|j: int| 0 <= j < r.len() implies s.contains(#[trigger] r[j]) by {
        assert(r.contains(r[j]));
        assert(r.to_multiset().count(r[j]) > 0);
        assert(s.to_multiset().count(r[j]) > 0);
    }
    assert forall|j: int|
        0 <= j < r.len() implies (if type_lines {
            type_shaped(#[trigger] r[j])
        } else {
            value_shaped(r[j])
        }) && text::unbroken(r[j]) by {
        assert(s.contains(r[j]));
        let w = choose|w: int| 0 <= w < s.len() && s[w] == r[j];
        assert(text::unbroken(s[w]));
    }
}

/// An import line as sorting leaves it is not blank and has no leading tab.
proof fn lemma_shaped_line(y: Seq<char>)
    requires
        type_shaped(y) || value_shaped(y),
    ensures
        is_import_line(y),
        !text::blank(y),
        indent_line(y) == y,
{
    reveal_strlit("import ");
    reveal_strlit("import type ");
    if type_shaped(y) {
        assert(y.subrange(0, 12)[0] == y[0]);
    } else {
        assert(y.subrange(0, 7)[0] == y[0]);
    }
    assert(y[0] == 'i');
    assert(!text::is_ws(y[0]));
    lemma_indent_facts(y);
}

/// Re-sorting a block that sorting made (its imports in order, then empty
/// lines) changes nothing.
proof fn lemma_block_fixed(ts: Seq<Seq<char>>, vs: Seq<Seq<char>>, ep: Seq<Seq<char>>)
    requires
        forall|j: int| 0 <= j < ts.len() ==> type_shaped(#[trigger] ts[j]),
        forall|j: int| 0 <= j < vs.len() ==> value_shaped(#[trigger] vs[j]),
        text::sorted(ts),
        text::sorted(vs),
        forall|j: int| 0 <= j < ep.len() ==> (#[trigger] ep[j]).len() == 0,
    ensures
        sorted_block(ts + vs + ep) == ts + vs + ep,
{
    let t = ts + vs;
    let te = t + ep;
    lemma_imports_add(t, ep);
    lemma_imports_add(ts, vs);
    lemma_imports_of_shaped(ts, vs);
    lemma_imports_of_empties(ep);
    assert(type_imports(te) =~= ts);
    assert(value_imports(te) =~= vs);
    text::lemma_sort_sorted(ts);
    text::lemma_sort_sorted(vs);
    assert forall|i: int| 0 <= i < te.len() implies sorted_block(te)[i] == te[i] by {
        if i >= t.len() {
            assert(te[i] == ep[i - t.len()]);
            assert(te[i] =~= Seq::<char>::empty());
        }
    }
    assert(sorted_block(te) =~= te);
}

/// What `render` keeps of `p`, a sorted import block and `q`.
proof fn lemma_kept_shape(
    p: Seq<Seq<char>>,
    t: Seq<Seq<char>>,
    e: Seq<Seq<char>>,
    q: Seq<Seq<char>>,
)
    requires
        t.len() > 0,
        forall|j: int| 0 <= j < t.len() ==> !text::blank(#[trigger] t[j]),
        forall|j: int| 0 <= j < e.len() ==> text::blank(#[trigger] e[j]),
        q.len() > 0 ==> !text::blank(q[0]),
    ensures
        kept_lines(p + t + e + q, false) == kept_lines(p, false) + t + (if e.len() > 0 {
            seq![e[0]]
        } else {
            Seq::<Seq<char>>::empty()
        }) + kept_lines(q, e.len() > 0),
        q.len() > 0 ==> kept_lines(q, e.len() > 0).len() > 0 && kept_lines(q, e.len() > 0)[0]
            == q[0],
{
    let s = p + t + e + q;
    assert(s =~= p + (t + (e + q)));
    lemma_kept_add(p, t + (e + q), false);
    let sp = kept_state(p, false);
    lemma_kept_add(t, e + q, sp);
    lemma_kept_nonblank(t, sp);
    lemma_kept_add(e, q, false);
    lemma_kept_blanks(e, false);
    let ep = if e.len() > 0 {
        seq![e[0]]
    } else {
        Seq::<Seq<char>>::empty()
    };
    let kq = kept_lines(q, e.len() > 0);
    assert(kept_lines(p, false) + (t + (ep + kq)) =~= kept_lines(p, false) + t + ep + kq);
}

/// Sorting the imports of what `format` wrote, when the first import block
/// held imports: the block is already sorted, so nothing changes.
proof fn lemma_resort(
    p: Seq<Seq<char>>,
    ts: Seq<Seq<char>>,
    vs: Seq<Seq<char>>,
    e: Seq<Seq<char>>,
    q: Seq<Seq<char>>,
)
    requires
        no_imports(p),
        ts.len() + vs.len() > 0,
        forall|j: int| 0 <= j < ts.len() ==> type_shaped(#[trigger] ts[j]),
        forall|j: int| 0 <= j < vs.len() ==> value_shaped(#[trigger] vs[j]),
        text::sorted(ts),
        text::sorted(vs),
        forall|j: int| 0 <= j < e.len() ==> (#[trigger] e[j]).len() == 0,
        q.len() > 0 ==> !is_import_line(q[0]) && !text::blank(q[0]),
    ensures
        spec_sort_imports(indented(kept_lines(p + (ts + vs) + e + q, false)))
            == indented(kept_lines(p + (ts + vs) + e + q, false)),
{
    let t = ts + vs;
    assert forall|j: int| 0 <= j < t.len() implies type_shaped(#[trigger] t[j]) || value_shaped(t[j]) by {
        if j < ts.len() {
            assert(t[j] == ts[j]);
        } else {
            assert(t[j] == vs[j - ts.len()]);
        }
    }
    assert forall|j: int| 0 <= j < t.len() implies !text::blank(#[trigger] t[j]) && is_import_line(t[j])
        && indent_line(t[j]) == t[j] by {
        lemma_shaped_line(t[j]);
    }
    assert forall|j: int| 0 <= j < e.len() implies text::blank(#[trigger] e[j]) by {}
    lemma_kept_shape(p, t, e, q);
    let kp = kept_lines(p, false);
    let ep = if e.len() > 0 {
        seq![e[0]]
    } else {
        Seq::<Seq<char>>::empty()
    };
    let kq = kept_lines(q, e.len() > 0);
    let k = kept_lines(p + t + e + q, false);
    lemma_kept_from(p, false);
    assert(no_imports(kp)) by {
        assert forall|i: int| 0 <= i < kp.len() implies !is_import_line(#[trigger] kp[i]) by {
            let w = choose|w: int| 0 <= w < p.len() && p[w] == kp[i];
        }
    }
    let x = indented(k);
    let ikp = indented(kp);
    let ikq = indented(kq);
    let te = t + ep;
    assert(indented(t) =~= t);
    assert(indented(ep) =~= ep) by {
        if e.len() > 0 {
            lemma_indent_facts(e[0]);
        }
    }
    assert(x =~= ikp + te + ikq);
    let a = kp.len() as int;
    let b = a + te.len();
    assert forall|i: int| 0 <= i < a implies !is_import_line(#[trigger] x[i]) by {
        assert(x[i] == indent_line(kp[i]));
        lemma_indent_facts(kp[i]);
    }
    assert(x[a] == t[0]);
    lemma_first_import_at(x, 0, a);
    assert forall|i: int| a <= i < b implies is_import_line(#[trigger] x[i]) || text::blank(x[i]) by {
        if i < a + t.len() {
            assert(x[i] == t[i - a]);
        } else {
            assert(x[i] == ep[i - a - t.len()]);
        }
    }
    if b < x.len() {
        assert(x[b] == indent_line(kq[0]));
        lemma_indent_facts(q[0]);
    }
    lemma_block_end_at(x, a, b);
    assert(x.subrange(a, b) =~= te);
    assert forall|j: int| 0 <= j < ep.len() implies (#[trigger] ep[j]).len() == 0 by {}
    lemma_block_fixed(ts, vs, ep);
    assert(x.take(a) + te + x.skip(b) =~= x);
}

/// What `render` keeps of `ls` is never longer than `ls`, and is `ls` itself
/// when it is as long.
proof fn lemma_kept_len(ls: Seq<Seq<char>>, p: bool)
    ensures
        kept_lines(ls, p).len() <= ls.len(),
        kept_lines(ls, p).len() == ls.len() ==> kept_lines(ls, p) == ls,
    decreases ls.len(),
{
    if ls.len() > 0 {
        let r = ls.drop_first();
        if text::blank(ls[0]) && p {
            lemma_kept_len(r, p);
        } else {
            lemma_kept_len(r, text::blank(ls[0]));
            assert(seq![ls[0]] + r =~= ls);
        }
    }
}

/// Sorting the import block of lines as `format` writes them (none broken,
/// none with a leading tab, no two blank lines in a row) and writing them
/// again gives back their text only when the sorting changed nothing.
proof fn lemma_resort_visible(x: Seq<Seq<char>>)
    requires
        all_unbroken(x),
        indented(x) == x,
        forall|i: int| 0 <= i < x.len() - 1 ==> !(text::blank(#[trigger] x[i]) && text::blank(x[i + 1])),
        render(spec_sort_imports(x), false) == joined(x),
    ensures
        spec_sort_imports(x) == x,
{
    let y = spec_sort_imports(x);
    assert(y.len() == x.len() && all_unbroken(y) && indented(y) == y) by {
        lemma_first_import_scan(x, 0);
        let start = first_import(x, 0);
        if start < x.len() {
            lemma_block_end_scan(x, start);
            let end = import_block_end(x, start);
            let block = x.subrange(start, end);
            assert(all_unbroken(block)) by {
                assert forall|i: int| 0 <= i < block.len() implies text::unbroken(#[trigger] block[i]) by {
                    assert(block[i] == x[start + i]);
                }
            }
            lemma_import_elems(block);
            lemma_type_value_len(block);
            let ti = type_imports(block);
            let vi = value_imports(block);
            lemma_sorted_shaped(ti, true);
            lemma_sorted_shaped(vi, false);
            let ts = text::sort_seq(ti);
            let vs = text::sort_seq(vi);
            let sb = sorted_block(block);
            assert forall|i: int| 0 <= i < y.len() implies text::unbroken(#[trigger] y[i]) && indent_line(
                y[i],
            ) == y[i] by {
                if i < start || i >= end {
                    assert(y[i] == x[i]);
                    assert(indented(x)[i] == indent_line(x[i]));
                } else {
                    let j = i - start;
                    assert(y[i] == sb[j]);
                    if j < ts.len() {
                        assert(sb[j] == ts[j]);
                        lemma_shaped_line(ts[j]);
                    } else if j < ts.len() + vs.len() {
                        assert(sb[j] == vs[j - ts.len()]);
                        lemma_shaped_line(vs[j - ts.len()]);
                    } else {
                        assert(sb[j] == Seq::<char>::empty());
                        lemma_indent_facts(sb[j]);
                    }
                }
            }
            assert(indented(y) =~= y);
        } else {
            assert(y == x);
        }
    }
    lemma_kept_lines(y, false);
    let ky = kept_lines(y, false);
    lemma_kept_from(y, false);
    assert(all_unbroken(ky)) by {
        assert forall|i: int| 0 <= i < ky.len() implies text::unbroken(#[trigger] ky[i]) by {
            let w = choose|w: int| 0 <= w < y.len() && y[w] == ky[i];
        }
    }
    lemma_joined_lines(ky);
    lemma_joined_lines(x);
    assert(indented(ky) == x);
    lemma_kept_len(y, false);
    assert(ky == y);
}

/// The first import block of the lines of `input` holds no import with
/// content (only lines such as `import` followed by whitespace), while an
/// import line comes after it.
pub open spec fn hollow_first_block(input: Seq<char>) -> bool {
    let ls = text::lines(input);
    let start = first_import(ls, 0);
    let end = import_block_end(ls, start);
    let block = ls.subrange(start, end);
    &&& start < ls.len()
    &&& type_imports(block).len() + value_imports(block).len() == 0
    &&& !no_imports(ls.skip(end))
}

/// Formatting is idempotent where it can be: for input without `'\r'`,
/// formatting what `format` wrote gives it back unchanged exactly when the
/// import block of that output is already in order, which it is unless the
/// first import block of the input is hollow (see `hollow_first_block`).
pub proof fn law_format_idempotent(input: Seq<char>)
    requires
        !input.contains('\r'),
    ensures
        spec_format(spec_format(input)) == spec_format(input) <==> spec_sort_imports(
            text::lines(spec_format(input)),
        ) == text::lines(spec_format(input)),
        !hollow_first_block(input) ==> spec_format(spec_format(input)) == spec_format(input),
{
    let ls = text::lines(input);
    text::lemma_lines_unbroken(input);
    assert(all_unbroken(ls));
    let s1 = spec_sort_imports(ls);
    lemma_first_import_scan(ls, 0);
    let start = first_import(ls, 0);
    let mut is_plain = true;
    let mut in_order = true;
    if start < ls.len() {
        lemma_block_end_scan(ls, start);
        let end = import_block_end(ls, start);
        let block = ls.subrange(start, end);
        lemma_type_value_len(block);
        assert(all_unbroken(block)) by {
            assert forall|i: int| 0 <= i < block.len() implies text::unbroken(#[trigger] block[i]) by {
                assert(block[i] == ls[start + i]);
            }
        }
        lemma_import_elems(block);
        let ti = type_imports(block);
        let vi = value_imports(block);
        lemma_sorted_shaped(ti, true);
        lemma_sorted_shaped(vi, false);
        let ts = text::sort_seq(ti);
        let vs = text::sort_seq(vi);
        let t = ts + vs;
        let m = block.len() - t.len();
        let e = Seq::new(m as nat, |i: int| Seq::<char>::empty());
        let p = ls.take(start);
        let q = ls.skip(end);
        assert(sorted_block(block) =~= t + e);
        assert(s1 =~= p + t + e + q);
        assert(no_imports(p)) by {
            assert forall|i: int| 0 <= i < p.len() implies !is_import_line(#[trigger] p[i]) by {
                assert(p[i] == ls[i]);
            }
        }
        if q.len() > 0 {
            assert(q[0] == ls[end]);
        }
        assert(all_unbroken(s1)) by {
            assert forall|i: int| 0 <= i < s1.len() implies text::unbroken(#[trigger] s1[i]) by {
                if i < start {
                    assert(s1[i] == ls[i]);
                } else if i < start + ts.len() {
                    assert(s1[i] == ts[i - start]);
                } else if i < start + t.len() {
                    assert(s1[i] == vs[i - start - ts.len()]);
                } else if i < end {
                    assert(s1[i] == e[i - start - t.len()]);
                } else {
                    assert(s1[i] == ls[i]);
                }
            }
        }
        if t.len() > 0 {
            is_plain = false;
            lemma_resort(p, ts, vs, e, q);
        } else if hollow_first_block(input) {
            is_plain = false;
            in_order = false;
        } else {
            assert(no_imports(q));
            assert(no_imports(s1)) by {
                assert forall|i: int| 0 <= i < s1.len() implies !is_import_line(#[trigger] s1[i]) by {
                    if i < start {
                        assert(s1[i] == p[i]);
                    } else if i < end {
                        assert(s1[i] == e[i - start]);
                        reveal_strlit("import ");
                        reveal_strlit("import type ");
                    } else {
                        assert(s1[i] == q[i - end]);
                    }
                }
            }
        }
    } else {
        assert(s1 == ls);
        assert(no_imports(s1)) by {
            assert forall|i: int| 0 <= i < s1.len() implies !is_import_line(#[trigger] s1[i]) by {}
        }
    }
    let k = kept_lines(s1, false);
    lemma_kept_lines(s1, false);
    lemma_kept_from(s1, false);
    assert(all_unbroken(k)) by {
        assert forall|i: int| 0 <= i < k.len() implies text::unbroken(#[trigger] k[i]) by {
            let w = choose|w: int| 0 <= w < s1.len() && s1[w] == k[i];
        }
    }
    lemma_joined_lines(k);
    let x = indented(k);
    assert(text::lines(spec_format(input)) == x);
    if is_plain {
        assert(no_imports(x)) by {
            assert forall|i: int| 0 <= i < x.len() implies !is_import_line(#[trigger] x[i]) by {
                let w = choose|w: int| 0 <= w < s1.len() && s1[w] == k[i];
                lemma_indent_facts(k[i]);
            }
        }
        lemma_first_import_scan(x, 0);
        if first_import(x, 0) < x.len() {
            assert(is_import_line(x[first_import(x, 0)]));
        }
        assert(spec_sort_imports(x) == x);
    }
    assert(in_order ==> spec_sort_imports(x) == x);
    // rendering the lines again keeps them all and changes none
    assert forall|i: int| 0 <= i < x.len() - 1 implies !(text::blank(#[trigger] x[i]) && text::blank(
        x[i + 1],
    )) by {
        lemma_indent_facts(k[i]);
        lemma_indent_facts(k[i + 1]);
    }
    lemma_kept_identity(x, false);
    lemma_kept_lines(x, false);
    lemma_joined_indented(k);
    assert(spec_format(input) == joined(x));
    if spec_sort_imports(x) != x && spec_format(spec_format(input)) == spec_format(input) {
        assert(all_unbroken(x)) by {
            assert forall|i: int| 0 <= i < x.len() implies text::unbroken(#[trigger] x[i]) by {
                lemma_indent_facts(k[i]);
            }
        }
        assert(indented(x) =~= x) by {
            assert forall|i: int| 0 <= i < x.len() implies #[trigger] indent_line(x[i]) == x[i] by {
                lemma_indent_facts(k[i]);
            }
        }
        lemma_resort_visible(x);
    }
}

proof fn lemma_tab_run_shift(l: Seq<char>, i: int)
    requires
        0 <= i <= l.len(),
    ensures
        tab_run(seq!['\t'] + l, i + 1) == tab_run(l, i) + 1,
    decreases l.len() - i,
{
    let t = seq!['\t'] + l;
    if i < l.len() {
        assert(t[i + 1] == l[i]);
        if l[i] == '\t' {
            lemma_tab_run_shift(l, i + 1);
        }
    }
}

/// Each leading tab of a line is written as two spaces, and a line that does
/// not start with a tab is written as it is.
pub proof fn law_tabs_become_two_spaces(l: Seq<char>)
    ensures
        indent_line(seq!['\t'] + l) == seq![' ', ' '] + indent_line(l),
        (l.len() == 0 || l[0] != '\t') ==> indent_line(l) == l,
{
    let t = seq!['\t'] + l;
    lemma_tab_run_shift(l, 0);
    assert(t[0] == '\t');
    assert(tab_run(t, 0) == tab_run(t, 1));
    lemma_tab_run(l, 0);
    let k = tab_run(l, 0);
    assert(t.skip(k + 1) =~= l.skip(k));
    assert(spaces((2 * (k + 1)) as nat) =~= seq![' ', ' '] + spaces((2 * k) as nat));
    assert(indent_line(t) =~= seq![' ', ' '] + indent_line(l));
    lemma_indent_facts(l);
}

} // verus!
