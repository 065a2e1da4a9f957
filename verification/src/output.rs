//! The files of a generation run: their names, the barrel index files that
//! re-export them, the grouping of endpoints by tag for split output, and
//! the file of each endpoint in per-endpoint output.
use vstd::prelude::*;

use crate::ir::{Endpoint, EndpointV};
use crate::ir::strings_view;
use crate::text;

verus! {

/// `s` when `b` holds, else nothing.
pub open spec fn when(b: bool, s: Seq<char>) -> Seq<char> {
    if b {
        s
    } else {
        seq![]
    }
}

/// Appends `s` to `out` when `b` holds.
fn push_when(out: &mut Vec<char>, b: bool, s: &str)
    ensures
        final(out)@ == old(out)@ + when(b, s@),
{
    if b {
        text::push_str(out, s);
    } else {
        assert(out@ =~= out@ + Seq::<char>::empty());
    }
}

// ---- Generated files ------------------------------------------------------------------

/// What the emitters produced, formatted: the types and the client always,
/// the others when asked for.
pub struct Outputs {
    pub types: String,
    pub client: String,
    pub hooks: Option<String>,
    pub zod: Option<String>,
    pub valibot: Option<String>,
    pub msw: Option<String>,
    pub mock: Option<String>,
}

/// `[(name, content)]` when the content is there, else nothing.
pub open spec fn named(name: Seq<char>, c: Option<String>) -> Seq<(Seq<char>, Seq<char>)> {
    match c {
        Some(x) => seq![(name, x@)],
        None => seq![],
    }
}

/// The files of the outputs, in order: types, client, hooks, zod, valibot,
/// msw, mock.
pub open spec fn spec_named_outputs(o: Outputs) -> Seq<(Seq<char>, Seq<char>)> {
    seq![("types.gen.ts"@, o.types@), ("client.gen.ts"@, o.client@)] + named(
        "hooks.gen.ts"@,
        o.hooks,
    ) + named("zod.gen.ts"@, o.zod) + named("valibot.gen.ts"@, o.valibot) + named(
        "msw.gen.ts"@,
        o.msw,
    ) + named("mock.gen.ts"@, o.mock)
}

/// The name and content of each file.
pub open spec fn files_view(v: Seq<(String, String)>) -> Seq<(Seq<char>, Seq<char>)> {
    v.map_values(|f: (String, String)| (f.0@, f.1@))
}

/// Appends `(name, c)` when `c` is there.
fn push_named(files: &mut Vec<(String, String)>, name: &str, c: Option<String>)
    ensures
        files_view(final(files)@) == files_view(old(files)@) + named(name@, c),
{
    let ghost before = files_view(files@);
    match c {
        Some(x) => {
            let ghost xv = x@;
            files.push((text::owned(name), x));
            assert(files_view(files@) =~= before + seq![(name@, xv)]);
        },
        None => {
            assert(files_view(files@) =~= before + Seq::<(Seq<char>, Seq<char>)>::empty());
        },
    }
}

/// The files to write (or to show in a dry run) for the outputs, each with
/// its name, in the order of `spec_named_outputs`.
pub fn named_outputs(o: Outputs) -> (r: Vec<(String, String)>)
    ensures
        files_view(r@) == spec_named_outputs(o),
{
    let ghost o0 = o;
    let mut files: Vec<(String, String)> = Vec::new();
    files.push((text::owned("types.gen.ts"), o.types));
    files.push((text::owned("client.gen.ts"), o.client));
    assert(files_view(files@) =~= seq![("types.gen.ts"@, o0.types@), ("client.gen.ts"@, o0.client@)]);
    push_named(&mut files, "hooks.gen.ts", o.hooks);
    push_named(&mut files, "zod.gen.ts", o.zod);
    push_named(&mut files, "valibot.gen.ts", o.valibot);
    push_named(&mut files, "msw.gen.ts", o.msw);
    push_named(&mut files, "mock.gen.ts", o.mock);
    files
}

/// The barrel `index.gen.ts`: the header, then a re-export of the types and
/// the client, and of each other output that is generated.
pub open spec fn spec_barrel_index(
    header: Seq<char>,
    hooks: bool,
    zod: bool,
    valibot: bool,
    msw: bool,
    mock: bool,
) -> Seq<char> {
    header + "\n"@ + "export * from './types.gen';\n"@ + "export * from './client.gen';\n"@ + when(
        hooks,
        "export * from './hooks.gen';\n"@,
    ) + when(zod, "export * from './zod.gen';\n"@) + when(
        valibot,
        "export * from './valibot.gen';\n"@,
    ) + when(msw, "export * from './msw.gen';\n"@) + when(mock, "export * from './mock.gen';\n"@)
}

/// The barrel index that re-exports everything generated.
pub fn barrel_index(header: &str, hooks: bool, zod: bool, valibot: bool, msw: bool, mock: bool) -> (r:
    String)
    ensures
        r@ == spec_barrel_index(header@, hooks, zod, valibot, msw, mock),
{
    let mut out = text::chars_of(header);
    text::push_str(&mut out, "\n");
    text::push_str(&mut out, "export * from './types.gen';\n");
    text::push_str(&mut out, "export * from './client.gen';\n");
    push_when(&mut out, hooks, "export * from './hooks.gen';\n");
    push_when(&mut out, zod, "export * from './zod.gen';\n");
    push_when(&mut out, valibot, "export * from './valibot.gen';\n");
    push_when(&mut out, msw, "export * from './msw.gen';\n");
    push_when(&mut out, mock, "export * from './mock.gen';\n");
    text::string_of(out.as_slice())
}

/// One re-export per tag directory.
pub open spec fn tag_exports(slugs: Seq<Seq<char>>) -> Seq<char>
    decreases slugs.len(),
{
    if slugs.len() == 0 {
        seq![]
    } else {
        tag_exports(slugs.drop_last()) + "export * from './"@ + slugs.last() + "';\n"@
    }
}

/// The root `index.gen.ts` of tag-split output: the header, the types, and
/// each tag directory (by slug) in order.
pub open spec fn spec_tags_index(header: Seq<char>, slugs: Seq<Seq<char>>) -> Seq<char> {
    header + "\n"@ + "export * from './types.gen';\n"@ + tag_exports(slugs)
}

/// The root index of tag-split output.
pub fn tags_index(header: &str, slugs: &Vec<String>) -> (r: String)
    ensures
        r@ == spec_tags_index(header@, strings_view(slugs@)),
{
    let ghost sv = strings_view(slugs@);
    let mut out = text::chars_of(header);
    text::push_str(&mut out, "\n");
    text::push_str(&mut out, "export * from './types.gen';\n");
    let ghost base = out@;
    let mut i: usize = 0;
    assert(sv.take(0) =~= Seq::<Seq<char>>::empty());
    assert(out@ =~= base + tag_exports(sv.take(0)));
    while i < slugs.len()
        invariant
            0 <= i <= slugs@.len(),
            sv == strings_view(slugs@),
            out@ == base + tag_exports(sv.take(i as int)),
        decreases slugs@.len() - i,
    {
        text::push_str(&mut out, "export * from './");
        text::push_str(&mut out, slugs[i].as_str());
        text::push_str(&mut out, "';\n");
        proof {
            let t = sv.take(i + 1);
            assert(t.drop_last() =~= sv.take(i as int));
            assert(t.last() == slugs@[i as int]@);
            assert(out@ =~= base + tag_exports(t));
        }
        i = i + 1;
    }
    assert(sv.take(slugs@.len() as int) =~= sv);
    text::string_of(out.as_slice())
}

/// The `index.gen.ts` of a tag directory: the header, the client, and the
/// hooks when they are generated.
pub open spec fn spec_tag_dir_index(header: Seq<char>, hooks: bool) -> Seq<char> {
    header + "\n"@ + "export * from './client.gen';\n"@ + when(hooks, "export * from './hooks.gen';\n"@)
}

/// The index of a tag directory.
pub fn tag_dir_index(header: &str, hooks: bool) -> (r: String)
    ensures
        r@ == spec_tag_dir_index(header@, hooks),
{
    let mut out = text::chars_of(header);
    text::push_str(&mut out, "\n");
    text::push_str(&mut out, "export * from './client.gen';\n");
    push_when(&mut out, hooks, "export * from './hooks.gen';\n");
    text::string_of(out.as_slice())
}

/// Whether a file is an index file, by its name.
pub fn is_index_file(file_name: &str) -> (r: bool)
    ensures
        r == (file_name@ == "index.gen.ts"@),
{
    text::str_equal(file_name, "index.gen.ts")
}

/// The file of an endpoint in per-endpoint output: `{operation_id}.gen.ts`.
pub fn endpoint_file_name(operation_id: &str) -> (r: String)
    ensures
        r@ == operation_id@ + ".gen.ts"@,
{
    text::concat(operation_id, ".gen.ts")
}

/// The import that a per-endpoint file of the fetch client starts with.
pub open spec fn fetch_endpoint_import() -> Seq<char> {
    "import type { RequestConfig } from '../client.gen';"@
}

/// The start of a per-endpoint file: the header line, the client import
/// line (that of the fetch client when no custom client import is given),
/// and an empty line.
pub fn endpoint_preamble(header: &str, custom_import: Option<&str>) -> (r: String)
    ensures
        r@ == header@ + "\n"@ + match custom_import {
            Some(i) => i@,
            None => fetch_endpoint_import(),
        } + "\n"@ + "\n"@,
{
    let mut out = text::chars_of(header);
    text::push_str(&mut out, "\n");
    match custom_import {
        Some(i) => text::push_str(&mut out, i),
        None => text::push_str(&mut out, "import type { RequestConfig } from '../client.gen';"),
    }
    text::push_str(&mut out, "\n");
    text::push_str(&mut out, "\n");
    text::string_of(out.as_slice())
}

// ---- Grouping by tag ---------------------------------------------------------------------

/// What `str::to_lowercase` gives for `s` (lowercase according to the
/// Unicode derived property Lowercase).
pub uninterp spec fn lowercase(s: Seq<char>) -> Seq<char>;

/// `str::to_lowercase`: the result is what `lowercase` names for the text.
#[verifier::external_body]
fn to_lowercase(s: &str) -> (r: String)
    ensures
        r@ == lowercase(s@),
{
    s.to_lowercase()
}

/// The directory of a tag: the tag in lowercase, spaces made dashes.
pub fn tag_slug(tag: &str) -> (r: String)
    ensures
        r@ == text::replace_char(lowercase(tag@), ' ', '-'),
{
    let l = to_lowercase(tag);
    let c = text::chars_of(l.as_str());
    let d = text::replace_chars(c.as_slice(), ' ', '-');
    text::string_of(d.as_slice())
}

/// The tag that groups an endpoint: its first tag, else `default`.
pub open spec fn tag_of(e: EndpointV) -> Seq<char> {
    if e.tags.len() > 0 {
        e.tags[0]
    } else {
        "default"@
    }
}

/// The positions, in order, of the endpoints grouped under `t`.
pub open spec fn tag_members(eps: Seq<EndpointV>, t: Seq<char>) -> Seq<usize>
    decreases eps.len(),
{
    if eps.len() == 0 {
        seq![]
    } else {
        let r = tag_members(eps.drop_last(), t);
        if tag_of(eps.last()) == t {
            r.push((eps.len() - 1) as usize)
        } else {
            r
        }
    }
}

/// `a` comes strictly before `b`.
pub open spec fn lex_lt(a: Seq<char>, b: Seq<char>) -> bool {
    text::lex_le(a, b) && a != b
}

/// `g` groups `eps` by tag: one group per tag, in ascending tag order, each
/// listing the positions of its endpoints in order.
pub open spec fn is_grouping(g: Seq<(Seq<char>, Seq<usize>)>, eps: Seq<EndpointV>) -> bool {
    &&& forall|i: int, j: int| 0 <= i < j < g.len() ==> lex_lt(#[trigger] g[i].0, #[trigger] g[j].0)
    &&& forall|i: int|
        0 <= i < g.len() ==> (#[trigger] g[i]).1 == tag_members(eps, g[i].0) && g[i].1.len() > 0
    &&& forall|k: int|
        0 <= k < eps.len() ==> exists|i: int| 0 <= i < g.len() && (#[trigger] g[i]).0 == tag_of(
            #[trigger] eps[k],
        )
}

/// The view of a grouping.
pub open spec fn groups_view(g: Seq<(String, Vec<usize>)>) -> Seq<(Seq<char>, Seq<usize>)> {
    g.map_values(|e: (String, Vec<usize>)| (e.0@, e.1@))
}

/// The views of a list of endpoints.
pub open spec fn endpoints_view(eps: Seq<Endpoint>) -> Seq<EndpointV> {
    eps.map_values(|e: Endpoint| e@)
}

/// The members of a tag that no endpoint has are none.
proof fn lemma_members_absent(eps: Seq<EndpointV>, t: Seq<char>)
    requires
        forall|k: int| 0 <= k < eps.len() ==> tag_of(#[trigger] eps[k]) != t,
    ensures
        tag_members(eps, t) == Seq::<usize>::empty(),
    decreases eps.len(),
{
    if eps.len() > 0 {
        assert forall|k: int| 0 <= k < eps.drop_last().len() implies tag_of(
            #[trigger] eps.drop_last()[k],
        ) != t by {
            assert(eps.drop_last()[k] == eps[k]);
        }
        lemma_members_absent(eps.drop_last(), t);
        assert(tag_of(eps[eps.len() - 1]) != t);
    }
}

/// Taking one more endpoint adds its position to its tag's members only.
proof fn lemma_members_step(eps: Seq<EndpointV>, n: int, t: Seq<char>)
    requires
        0 <= n < eps.len(),
        n < usize::MAX,
    ensures
        tag_members(eps.take(n + 1), t) == if tag_of(eps[n]) == t {
            tag_members(eps.take(n), t).push(n as usize)
        } else {
            tag_members(eps.take(n), t)
        },
{
    let s = eps.take(n + 1);
    assert(s.drop_last() =~= eps.take(n));
    assert(s.last() == eps[n]);
}

/// The tag of an endpoint.
fn endpoint_tag(e: &Endpoint) -> (r: String)
    ensures
        r@ == tag_of(e@),
{
    if e.tags.len() > 0 {
        assert(e@.tags[0] == e.tags@[0]@);
        e.tags[0].clone()
    } else {
        text::owned("default")
    }
}

/// Split by tag: the endpoints grouped by their first tag (`default` for
/// those without one), one group per tag in ascending tag order, each
/// listing the positions of its endpoints in order.
#[verifier::rlimit(40)]
pub fn group_by_tag(endpoints: &Vec<Endpoint>) -> (r: Vec<(String, Vec<usize>)>)
    ensures
        is_grouping(groups_view(r@), endpoints_view(endpoints@)),
{
    let ghost ev = endpoints_view(endpoints@);
    let mut g: Vec<(String, Vec<usize>)> = Vec::new();
    let mut n: usize = 0;
    assert(ev.take(0) =~= Seq::<EndpointV>::empty());
    while n < endpoints.len()
        invariant
            0 <= n <= endpoints@.len(),
            ev == endpoints_view(endpoints@),
            ev.len() == endpoints@.len(),
            is_grouping(groups_view(g@), ev.take(n as int)),
        decreases endpoints@.len() - n,
    {
        let ghost gv = groups_view(g@);
        let ghost prev = ev.take(n as int);
        let ghost next = ev.take(n + 1);
        let t = endpoint_tag(&endpoints[n]);
        assert(ev[n as int] == endpoints@[n as int]@);
        let tc = text::chars_of(t.as_str());
        // the first group whose tag is not before `t`
        let mut p: usize = 0;
        while p < g.len() && !text::lex_le_exec(tc.as_slice(), text::chars_of(g[p].0.as_str()).as_slice())
            invariant
                0 <= p <= g@.len(),
                gv == groups_view(g@),
                tc@ == t@,
                forall|i: int| 0 <= i < p ==> !text::lex_le(t@, #[trigger] gv[i].0),
            decreases g@.len() - p,
        {
            p = p + 1;
        }
        proof {
            lemma_members_step(ev, n as int, t@);
            assert forall|k: int| 0 <= k < n implies #[trigger] next[k] == prev[k] by {}
            assert(next[n as int] == ev[n as int]);
        }
        if p < g.len() && text::str_equal(g[p].0.as_str(), t.as_str()) {
            let ghost entry = gv[p as int];
            g[p].1.push(n);
            proof {
                let nv = groups_view(g@);
                assert(nv =~= gv.update(p as int, (entry.0, entry.1.push(n))));
                assert forall|i: int| 0 <= i < nv.len() implies (#[trigger] nv[i]).1 == tag_members(
                    next,
                    nv[i].0,
                ) && nv[i].1.len() > 0 by {
                    lemma_members_step(ev, n as int, nv[i].0);
                    if i != p {
                        if i < p {
                            assert(lex_lt(gv[i].0, gv[p as int].0));
                        } else {
                            assert(lex_lt(gv[p as int].0, gv[i].0));
                        }
                    }
                }
                assert forall|k: int| 0 <= k < next.len() implies exists|i: int|
                    0 <= i < nv.len() && (#[trigger] nv[i]).0 == tag_of(#[trigger] next[k]) by {
                    if k < n {
                        let i = choose|i: int| 0 <= i < gv.len() && (#[trigger] gv[i]).0 == tag_of(
                            prev[k],
                        );
                        assert(nv[i].0 == gv[i].0);
                    } else {
                        assert(nv[p as int].0 == tag_of(next[k]));
                    }
                }
                assert forall|i: int, j: int| 0 <= i < j < nv.len() implies lex_lt(
                    #[trigger] nv[i].0,
                    #[trigger] nv[j].0,
                ) by {
                    assert(nv[i].0 == gv[i].0 && nv[j].0 == gv[j].0);
                }
            }
        } else {
            let ghost tv = t@;
            let mut members: Vec<usize> = Vec::new();
            members.push(n);
            g.insert(p, (t, members));
            proof {
                let nv = groups_view(g@);
                assert(nv =~= gv.insert(p as int, (tv, seq![n])));
                // `t` is no group's tag yet
                assert forall|i: int| 0 <= i < gv.len() implies (#[trigger] gv[i]).0 != tv by {
                    if i < p {
                        text::lemma_lex_total(tv, gv[i].0);
                    } else if i > p {
                        assert(lex_lt(gv[p as int].0, gv[i].0));
                        text::lemma_lex_trans(tv, gv[p as int].0, gv[i].0);
                        if gv[i].0 == tv {
                            text::lemma_lex_antisym(tv, gv[p as int].0);
                        }
                    }
                }
                assert forall|k: int| 0 <= k < prev.len() implies tag_of(#[trigger] prev[k]) != tv by {
                    let i = choose|i: int| 0 <= i < gv.len() && (#[trigger] gv[i]).0 == tag_of(prev[k]);
                    assert(gv[i].0 != tv);
                }
                lemma_members_absent(prev, tv);
                assert forall|i: int| 0 <= i < nv.len() implies (#[trigger] nv[i]).1 == tag_members(
                    next,
                    nv[i].0,
                ) && nv[i].1.len() > 0 by {
                    lemma_members_step(ev, n as int, nv[i].0);
                    if i < p {
                        assert(nv[i] == gv[i]);
                    } else if i > p {
                        assert(nv[i] == gv[i - 1]);
                    } else {
                        assert(tag_members(prev, tv) =~= Seq::<usize>::empty());
                        assert(nv[i].1 =~= seq![n]);
                    }
                }
                assert forall|k: int| 0 <= k < next.len() implies exists|i: int|
                    0 <= i < nv.len() && (#[trigger] nv[i]).0 == tag_of(#[trigger] next[k]) by {
                    if k < n {
                        let i = choose|i: int| 0 <= i < gv.len() && (#[trigger] gv[i]).0 == tag_of(
                            prev[k],
                        );
                        if i < p {
                            assert(nv[i].0 == gv[i].0);
                        } else {
                            assert(nv[i + 1].0 == gv[i].0);
                        }
                    } else {
                        assert(nv[p as int].0 == tag_of(next[k]));
                    }
                }
                assert forall|i: int, j: int| 0 <= i < j < nv.len() implies lex_lt(
                    #[trigger] nv[i].0,
                    #[trigger] nv[j].0,
                ) by {
                    if j < p {
                        assert(nv[i].0 == gv[i].0 && nv[j].0 == gv[j].0);
                    } else if i > p {
                        assert(nv[i].0 == gv[i - 1].0 && nv[j].0 == gv[j - 1].0);
                    } else if i == p {
                        assert(nv[j].0 == gv[j - 1].0);
                        assert(text::lex_le(tv, gv[p as int].0));
                        if j - 1 > p {
                            assert(lex_lt(gv[p as int].0, gv[j - 1].0));
                            text::lemma_lex_trans(tv, gv[p as int].0, gv[j - 1].0);
                        }
                    } else if j == p {
                        assert(nv[i].0 == gv[i].0);
                        text::lemma_lex_total(tv, gv[i].0);
                    } else {
                        assert(nv[i].0 == gv[i].0 && nv[j].0 == gv[j - 1].0);
                    }
                }
            }
        }
        n = n + 1;
    }
    assert(ev.take(endpoints@.len() as int) =~= ev);
    g
}

/// An endpoint position is among a tag's members exactly when the
/// endpoint is grouped under that tag.
proof fn lemma_members_contains(eps: Seq<EndpointV>, t: Seq<char>, k: int)
    requires
        eps.len() <= usize::MAX,
        0 <= k <= usize::MAX,
    ensures
        tag_members(eps, t).contains(k as usize) <==> (k < eps.len() && tag_of(eps[k]) == t),
    decreases eps.len(),
{
    if eps.len() > 0 {
        let d = eps.drop_last();
        lemma_members_contains(d, t, k);
        let r = tag_members(d, t);
        if k < d.len() {
            assert(d[k] == eps[k]);
        }
        if tag_of(eps.last()) == t {
            assert(tag_members(eps, t) == r.push((eps.len() - 1) as usize));
            let rp = r.push((eps.len() - 1) as usize);
            if rp.contains(k as usize) {
                let m = choose|m: int| 0 <= m < rp.len() && #[trigger] rp[m] == k as usize;
                if m < r.len() {
                    assert(rp[m] == r[m]);
                    assert(r.contains(k as usize));
                } else {
                    assert(rp[m] == (eps.len() - 1) as usize);
                    assert(k == eps.len() - 1);
                }
            }
            if k < eps.len() && tag_of(eps[k]) == t && k == eps.len() - 1 {
                assert(r.push((eps.len() - 1) as usize)[r.len() as int] == k as usize);
            }
            if r.contains(k as usize) {
                let m = choose|m: int| 0 <= m < r.len() && r[m] == k as usize;
                assert(r.push((eps.len() - 1) as usize)[m] == k as usize);
            }
        } else {
            assert(tag_members(eps, t) == r);
        }
    } else {
        assert(tag_members(eps, t) =~= Seq::<usize>::empty());
    }
}

/// Split by tag puts each endpoint in exactly one group: the group of its
/// first tag (or `default`).
pub proof fn law_each_endpoint_in_one_group(g: Seq<(Seq<char>, Seq<usize>)>, eps: Seq<EndpointV>, k: int)
    requires
        is_grouping(g, eps),
        0 <= k < eps.len(),
        eps.len() <= usize::MAX,
    ensures
        exists|i: int| 0 <= i < g.len() && (#[trigger] g[i]).0 == tag_of(eps[k]) && g[i].1.contains(k as usize),
        forall|i: int, j: int|
            0 <= i < g.len() && 0 <= j < g.len() && (#[trigger] g[i]).1.contains(k as usize) && (
            #[trigger] g[j]).1.contains(k as usize) ==> i == j,
{
    let i = choose|i: int| 0 <= i < g.len() && (#[trigger] g[i]).0 == tag_of(#[trigger] eps[k]);
    lemma_members_contains(eps, g[i].0, k);
    assert forall|i: int, j: int|
        0 <= i < g.len() && 0 <= j < g.len() && (#[trigger] g[i]).1.contains(k as usize) && (
        #[trigger] g[j]).1.contains(k as usize) implies i == j by {
        lemma_members_contains(eps, g[i].0, k);
        lemma_members_contains(eps, g[j].0, k);
        if i < j {
            assert(lex_lt(g[i].0, g[j].0));
        } else if j < i {
            assert(lex_lt(g[j].0, g[i].0));
        }
    }
}

} // verus!
