//! Resolution of local `$ref` paths and detection of reference cycles.
use vstd::prelude::*;

use crate::openapi::{AdditionalProperties, Components, Schema, SchemaOrRef};
use crate::openapi;
use crate::ir::strings_view;
use crate::text;

verus! {

/// The index of the first character at or after `i` that is not `c`.
pub open spec fn run_of(s: Seq<char>, i: int, c: char) -> int
    decreases s.len() - i,
{
    if 0 <= i < s.len() && s[i] == c {
        run_of(s, i + 1, c)
    } else {
        i
    }
}

/// `str::trim_start_matches(c)`: `s` without its leading `c`s.
pub open spec fn trim_start_char(s: Seq<char>, c: char) -> Seq<char> {
    s.skip(run_of(s, 0, c))
}

proof fn lemma_run_of(s: Seq<char>, i: int, c: char)
    requires
        0 <= i <= s.len(),
    ensures
        i <= run_of(s, i, c) <= s.len(),
    decreases s.len() - i,
{
    if i < s.len() && s[i] == c {
        lemma_run_of(s, i + 1, c);
    }
}

/// `s` without its leading `c`s.
fn trim_start_exec(s: &[char], c: char) -> (r: Vec<char>)
    ensures
        r@ == trim_start_char(s@, c),
{
    let mut i: usize = 0;
    while i < s.len() && s[i] == c
        invariant
            0 <= i <= s.len(),
            run_of(s@, i as int, c) == run_of(s@, 0, c),
        decreases s.len() - i,
    {
        i = i + 1;
    }
    let mut r: Vec<char> = Vec::new();
    let mut k: usize = i;
    while k < s.len()
        invariant
            i <= k <= s.len(),
            r@ == s@.subrange(i as int, k as int),
        decreases s.len() - k,
    {
        r.push(s[k]);
        k = k + 1;
    }
    assert(r@ =~= s@.skip(i as int));
    r
}

/// The schema name that a `$ref` path names: the path without its leading
/// `#`s and then its leading `/`s must split at `/` into exactly
/// `components`, `schemas` and the name.
pub open spec fn ref_schema_name(ref_path: Seq<char>) -> Option<Seq<char>> {
    let t = trim_start_char(trim_start_char(ref_path, '#'), '/');
    let p = "components/schemas/"@;
    if text::has_prefix(t, p) && !t.skip(p.len() as int).contains('/') {
        Some(t.skip(p.len() as int))
    } else {
        None
    }
}

/// What `resolve_ref` returns for `ref_path`.
pub open spec fn spec_resolve_ref(ref_path: Seq<char>, components: Option<Components>) -> Option<
    SchemaOrRef,
> {
    match ref_schema_name(ref_path) {
        Some(name) => match components {
            Some(c) => openapi::lookup(c.schemas@, name),
            None => None,
        },
        None => None,
    }
}

/// Whether `c` occurs in `s`.
fn contains_char(s: &[char], c: char) -> (r: bool)
    ensures
        r == s@.contains(c),
{
    let mut i: usize = 0;
    while i < s.len()
        invariant
            0 <= i <= s.len(),
            forall|k: int| 0 <= k < i ==> s@[k] != c,
        decreases s.len() - i,
    {
        if s[i] == c {
            return true;
        }
        i = i + 1;
    }
    false
}

/// Resolve a $ref path like "#/components/schemas/Pet" to the referenced schema.
pub fn resolve_ref<'a>(ref_path: &str, components: Option<&'a Components>) -> (r: Option<
    &'a SchemaOrRef,
>)
    ensures
        match r {
            Some(x) => spec_resolve_ref(
                ref_path@,
                match components {
                    Some(c) => Some(*c),
                    None => None,
                },
            ) == Some(*x),
            None => spec_resolve_ref(
                ref_path@,
                match components {
                    Some(c) => Some(*c),
                    None => None,
                },
            ) is None,
        },
{
    let s = text::chars_of(ref_path);
    let a = trim_start_exec(s.as_slice(), '#');
    let t = trim_start_exec(a.as_slice(), '/');
    let p = text::chars_of("components/schemas/");
    if !text::starts_with(t.as_slice(), p.as_slice()) {
        return None;
    }
    let mut name: Vec<char> = Vec::new();
    let mut k: usize = p.len();
    while k < t.len()
        invariant
            p.len() <= k <= t.len(),
            name@ == t@.subrange(p.len() as int, k as int),
        decreases t.len() - k,
    {
        name.push(t[k]);
        k = k + 1;
    }
    assert(name@ =~= t@.skip(p.len() as int));
    if contains_char(name.as_slice(), '/') {
        return None;
    }
    match components {
        Some(c) => {
            let name_str = text::string_of(name.as_slice());
            match openapi::find_entry(&c.schemas, name_str.as_str()) {
                Some(i) => Some(&c.schemas[i].1),
                None => None,
            }
        },
        None => None,
    }
}

// ---- Reference cycles ---------------------------------------------------------

/// The `$ref` paths that the cycle search can meet in `s` before it follows
/// any of them: `s` itself when it is a ref, else those of its properties,
/// items, prefixItems, allOf, oneOf, anyOf and schema-valued
/// additionalProperties, in traversal order.
pub open spec fn walk(s: SchemaOrRef) -> Seq<Seq<char>>
    decreases s, 0int,
{
    match s {
        SchemaOrRef::Ref { ref_path } => seq![ref_path@],
        SchemaOrRef::Schema(sch) => walk_props(sch.properties, 0) + walk_item(sch.items) + walk_list(
            sch.prefix_items,
        ) + walk_list(sch.all_of) + walk_list(sch.one_of) + walk_list(sch.any_of) + walk_extra(
            sch.additional_properties,
        ),
    }
}

/// `walk` of a schema-valued `additionalProperties`.
pub open spec fn walk_extra(o: Option<AdditionalProperties>) -> Seq<Seq<char>>
    decreases o, 0int,
{
    match o {
        Some(AdditionalProperties::Schema(ap)) => walk(*ap),
        _ => seq![],
    }
}

/// `walk` of an optional items schema.
pub open spec fn walk_item(o: Option<Box<SchemaOrRef>>) -> Seq<Seq<char>>
    decreases o, 0int,
{
    match o {
        Some(it) => walk(*it),
        None => seq![],
    }
}

/// `walk` of the property schemas of `v` from index `i` on.
pub open spec fn walk_props(v: Vec<(String, SchemaOrRef)>, i: int) -> Seq<Seq<char>>
    decreases v, v@.len() - i,
{
    if 0 <= i < v@.len() {
        walk(v@[i].1) + walk_props(v, i + 1)
    } else {
        seq![]
    }
}

/// `walk` of the schemas of an optional list.
pub open spec fn walk_list(o: Option<Vec<SchemaOrRef>>) -> Seq<Seq<char>>
    decreases o, 0int,
{
    match o {
        Some(v) => walk_vec(v, 0),
        None => seq![],
    }
}

/// `walk` of the schemas of `v` from index `i` on.
pub open spec fn walk_vec(v: Vec<SchemaOrRef>, i: int) -> Seq<Seq<char>>
    decreases v, v@.len() - i,
{
    if 0 <= i < v@.len() {
        walk(v@[i]) + walk_vec(v, i + 1)
    } else {
        seq![]
    }
}

/// `walk` of every schema of a schema map, in order.
pub open spec fn walk_entries(m: Seq<(String, SchemaOrRef)>) -> Seq<Seq<char>>
    decreases m.len(),
{
    if m.len() == 0 {
        seq![]
    } else {
        walk(m[0].1) + walk_entries(m.drop_first())
    }
}

/// `walk` of every component schema.
pub open spec fn walk_components(c: Option<Components>) -> Seq<Seq<char>> {
    match c {
        Some(c) => walk_entries(c.schemas@),
        None => seq![],
    }
}

/// The ref paths that a search from `s` can ever meet: a finite set, which
/// bounds how deep the search goes.
pub open spec fn search_universe(s: SchemaOrRef, c: Option<Components>) -> Set<Seq<char>> {
    (walk(s) + walk_components(c)).to_set()
}

/// Every element of `s` is in `u`.
pub open spec fn within(s: Seq<Seq<char>>, u: Set<Seq<char>>) -> bool {
    forall|k: int| 0 <= k < s.len() ==> u.contains(#[trigger] s[k])
}

/// Whether the depth-first search from `s` meets a ref path that is already
/// on its path (`visited`, the refs being followed): a ref already visited
/// is a cycle; another ref is followed when it resolves to a component
/// schema (and is a dead end when it does not); an inline schema is
/// circular when one of its properties, its items, one of its prefixItems,
/// allOf, oneOf or anyOf schemas, or its schema-valued additionalProperties
/// is. The paths followed are drawn from the finite set `u`.
pub open spec fn circ(s: SchemaOrRef, c: Option<Components>, visited: Set<Seq<char>>, u: Set<
    Seq<char>,
>) -> bool
    decreases (u - visited).len(), s, 0int,
{
    match s {
        SchemaOrRef::Ref { ref_path } => {
            if visited.contains(ref_path@) {
                true
            } else if u.finite() && u.contains(ref_path@) {
                match spec_resolve_ref(ref_path@, c) {
                    Some(t) => {
                        proof {
                            lemma_fewer_left(u, visited, ref_path@);
                        }
                        circ(t, c, visited.insert(ref_path@), u)
                    },
                    None => false,
                }
            } else {
                false
            }
        },
        SchemaOrRef::Schema(sch) => circ_props(sch.properties, 0, c, visited, u) || circ_item(
            sch.items,
            c,
            visited,
            u,
        ) || circ_list(sch.prefix_items, c, visited, u) || circ_list(sch.all_of, c, visited, u)
            || circ_list(sch.one_of, c, visited, u) || circ_list(sch.any_of, c, visited, u)
            || circ_extra(sch.additional_properties, c, visited, u),
    }
}

/// `circ` of a schema-valued `additionalProperties`.
pub open spec fn circ_extra(
    o: Option<AdditionalProperties>,
    c: Option<Components>,
    visited: Set<Seq<char>>,
    u: Set<Seq<char>>,
) -> bool
    decreases (u - visited).len(), o, 0int,
{
    match o {
        Some(AdditionalProperties::Schema(ap)) => circ(*ap, c, visited, u),
        _ => false,
    }
}

/// `circ` of an optional items schema.
pub open spec fn circ_item(
    o: Option<Box<SchemaOrRef>>,
    c: Option<Components>,
    visited: Set<Seq<char>>,
    u: Set<Seq<char>>,
) -> bool
    decreases (u - visited).len(), o, 0int,
{
    match o {
        Some(it) => circ(*it, c, visited, u),
        None => false,
    }
}

/// Some property schema of `v` from index `i` on is circular.
pub open spec fn circ_props(
    v: Vec<(String, SchemaOrRef)>,
    i: int,
    c: Option<Components>,
    visited: Set<Seq<char>>,
    u: Set<Seq<char>>,
) -> bool
    decreases (u - visited).len(), v, v@.len() - i,
{
    if 0 <= i < v@.len() {
        circ(v@[i].1, c, visited, u) || circ_props(v, i + 1, c, visited, u)
    } else {
        false
    }
}

/// Some schema of an optional list is circular.
pub open spec fn circ_list(
    o: Option<Vec<SchemaOrRef>>,
    c: Option<Components>,
    visited: Set<Seq<char>>,
    u: Set<Seq<char>>,
) -> bool
    decreases (u - visited).len(), o, 0int,
{
    match o {
        Some(v) => circ_vec(v, 0, c, visited, u),
        None => false,
    }
}

/// Some schema of `v` from index `i` on is circular.
pub open spec fn circ_vec(
    v: Vec<SchemaOrRef>,
    i: int,
    c: Option<Components>,
    visited: Set<Seq<char>>,
    u: Set<Seq<char>>,
) -> bool
    decreases (u - visited).len(), v, v@.len() - i,
{
    if 0 <= i < v@.len() {
        circ(v@[i], c, visited, u) || circ_vec(v, i + 1, c, visited, u)
    } else {
        false
    }
}

/// Following a new path of a finite `u` leaves fewer paths of `u` to follow.
pub proof fn lemma_fewer_left(u: Set<Seq<char>>, visited: Set<Seq<char>>, r: Seq<char>)
    requires
        u.finite(),
        u.contains(r),
        !visited.contains(r),
    ensures
        (u - visited.insert(r)).len() < (u - visited).len(),
{
    assert((u - visited.insert(r)) =~= (u - visited).remove(r));
    assert((u - visited).finite());
    assert((u - visited).contains(r));
}

/// The elements of a concatenation are within `u` exactly when those of
/// both parts are.
proof fn lemma_within_add(a: Seq<Seq<char>>, b: Seq<Seq<char>>, u: Set<Seq<char>>)
    ensures
        within(a + b, u) <==> within(a, u) && within(b, u),
{
    if within(a + b, u) {
        assert forall|k: int| 0 <= k < a.len() implies u.contains(#[trigger] a[k]) by {
            assert((a + b)[k] == a[k]);
        }
        assert forall|k: int| 0 <= k < b.len() implies u.contains(#[trigger] b[k]) by {
            assert((a + b)[a.len() + k] == b[k]);
        }
    }
    if within(a, u) && within(b, u) {
        assert forall|k: int| 0 <= k < (a + b).len() implies u.contains(#[trigger] (a + b)[k]) by {
            if k < a.len() {
                assert((a + b)[k] == a[k]);
            } else {
                assert((a + b)[k] == b[k - a.len()]);
            }
        }
    }
}

/// The schema that a name finds in a schema map has its refs among those of
/// the whole map.
proof fn lemma_walk_lookup(m: Seq<(String, SchemaOrRef)>, key: Seq<char>, u: Set<Seq<char>>)
    requires
        within(walk_entries(m), u),
    ensures
        match openapi::lookup(m, key) {
            Some(t) => within(walk(t), u),
            None => true,
        },
    decreases m.len(),
{
    if m.len() > 0 {
        lemma_within_add(walk(m[0].1), walk_entries(m.drop_first()), u);
        if m[0].0@ != key {
            lemma_walk_lookup(m.drop_first(), key, u);
        }
    }
}

/// The components as a value.
pub open spec fn copt(c: Option<&Components>) -> Option<Components> {
    match c {
        Some(x) => Some(*x),
        None => None,
    }
}

/// Whether `r` is one of `visited`.
fn on_path(visited: &Vec<String>, r: &String) -> (b: bool)
    ensures
        b == strings_view(visited@).to_set().contains(r@),
{
    let ghost sv = strings_view(visited@);
    let mut i: usize = 0;
    while i < visited.len()
        invariant
            0 <= i <= visited@.len(),
            sv == strings_view(visited@),
            forall|k: int| 0 <= k < i ==> sv[k] != r@,
        decreases visited@.len() - i,
    {
        if text::str_equal(visited[i].as_str(), r.as_str()) {
            assert(sv[i as int] == r@);
            return true;
        }
        i = i + 1;
    }
    assert(!sv.contains(r@));
    false
}

/// The depth-first search of `circ` from `schema`.
fn circ_exec(
    schema: &SchemaOrRef,
    c: Option<&Components>,
    visited: &mut Vec<String>,
    Ghost(u): Ghost<Set<Seq<char>>>,
    Ghost(vs): Ghost<Set<Seq<char>>>,
) -> (r: bool)
    requires
        u.finite(),
        vs == strings_view(old(visited)@).to_set(),
        within(walk(*schema), u),
        within(walk_components(copt(c)), u),
    ensures
        strings_view(final(visited)@) == strings_view(old(visited)@),
        r == circ(*schema, copt(c), vs, u),
    decreases (u - vs).len(), *schema, 0int,
{
    match schema {
        SchemaOrRef::Ref { ref_path } => {
            if on_path(visited, ref_path) {
                return true;
            }
            assert(walk(*schema)[0] == ref_path@);
            let ghost before = strings_view(visited@);
            match resolve_ref(ref_path.as_str(), c) {
                Some(t) => {
                    proof {
                        match c {
                            Some(cc) => lemma_walk_lookup(cc.schemas@, ref_schema_name(ref_path@)->0, u),
                            None => {},
                        }
                        lemma_fewer_left(u, vs, ref_path@);
                    }
                    visited.push(ref_path.clone());
                    proof {
                        assert(strings_view(visited@) =~= before.push(ref_path@));
                        assert forall|y: Seq<char>| #[trigger] strings_view(visited@).to_set().contains(y)
                            <==> vs.insert(ref_path@).contains(y) by {
                            if y != ref_path@ && strings_view(visited@).contains(y) {
                                let k = choose|k: int| 0 <= k < strings_view(visited@).len()
                                    && strings_view(visited@)[k] == y;
                                assert(before[k] == y);
                            }
                            if before.contains(y) {
                                let k = choose|k: int| 0 <= k < before.len() && before[k] == y;
                                assert(strings_view(visited@)[k] == y);
                            }
                            if y == ref_path@ {
                                assert(strings_view(visited@)[before.len() as int] == y);
                            }
                        }
                        assert(strings_view(visited@).to_set() =~= vs.insert(ref_path@));
                    }
                    let found = circ_exec(t, c, visited, Ghost(u), Ghost(vs.insert(ref_path@)));
                    let ghost mid = visited@;
                    visited.pop();
                    proof {
                        assert(visited@ =~= mid.drop_last());
                        assert(strings_view(mid) == before.push(ref_path@));
                        assert(strings_view(visited@) =~= strings_view(mid).drop_last());
                        assert(strings_view(visited@) =~= before);
                    }
                    found
                },
                None => false,
            }
        },
        SchemaOrRef::Schema(sch) => {
            proof {
                let a = walk_props(sch.properties, 0);
                let b = walk_item(sch.items);
                let l0 = walk_list(sch.prefix_items);
                let l1 = walk_list(sch.all_of);
                let l2 = walk_list(sch.one_of);
                let l3 = walk_list(sch.any_of);
                let e = walk_extra(sch.additional_properties);
                lemma_within_add(a + b + l0 + l1 + l2 + l3, e, u);
                lemma_within_add(a + b + l0 + l1 + l2, l3, u);
                lemma_within_add(a + b + l0 + l1, l2, u);
                lemma_within_add(a + b + l0, l1, u);
                lemma_within_add(a + b, l0, u);
                lemma_within_add(a, b, u);
            }
            if circ_props_exec(&sch.properties, 0, c, visited, Ghost(u), Ghost(vs)) {
                return true;
            }
            let in_items = match &sch.items {
                Some(it) => circ_exec(&**it, c, visited, Ghost(u), Ghost(vs)),
                None => false,
            };
            assert(in_items == circ_item(sch.items, copt(c), vs, u));
            if in_items {
                return true;
            }
            if circ_list_exec(&sch.prefix_items, c, visited, Ghost(u), Ghost(vs)) {
                return true;
            }
            if circ_list_exec(&sch.all_of, c, visited, Ghost(u), Ghost(vs)) {
                return true;
            }
            if circ_list_exec(&sch.one_of, c, visited, Ghost(u), Ghost(vs)) {
                return true;
            }
            if circ_list_exec(&sch.any_of, c, visited, Ghost(u), Ghost(vs)) {
                return true;
            }
            let in_extra = match &sch.additional_properties {
                Some(AdditionalProperties::Schema(ap)) => circ_exec(&**ap, c, visited, Ghost(u), Ghost(vs)),
                _ => false,
            };
            assert(in_extra == circ_extra(sch.additional_properties, copt(c), vs, u));
            in_extra
        },
    }
}

/// `circ_props` by search.
fn circ_props_exec(
    v: &Vec<(String, SchemaOrRef)>,
    i: usize,
    c: Option<&Components>,
    visited: &mut Vec<String>,
    Ghost(u): Ghost<Set<Seq<char>>>,
    Ghost(vs): Ghost<Set<Seq<char>>>,
) -> (r: bool)
    requires
        i <= v@.len(),
        u.finite(),
        vs == strings_view(old(visited)@).to_set(),
        within(walk_props(*v, i as int), u),
        within(walk_components(copt(c)), u),
    ensures
        strings_view(final(visited)@) == strings_view(old(visited)@),
        r == circ_props(*v, i as int, copt(c), vs, u),
    decreases (u - vs).len(), *v, v@.len() - i,
{
    if i < v.len() {
        proof {
            lemma_within_add(walk(v@[i as int].1), walk_props(*v, i + 1), u);
        }
        if circ_exec(&v[i].1, c, visited, Ghost(u), Ghost(vs)) {
            return true;
        }
        circ_props_exec(v, i + 1, c, visited, Ghost(u), Ghost(vs))
    } else {
        false
    }
}

/// `circ_list` by search.
fn circ_list_exec(
    o: &Option<Vec<SchemaOrRef>>,
    c: Option<&Components>,
    visited: &mut Vec<String>,
    Ghost(u): Ghost<Set<Seq<char>>>,
    Ghost(vs): Ghost<Set<Seq<char>>>,
) -> (r: bool)
    requires
        u.finite(),
        vs == strings_view(old(visited)@).to_set(),
        within(walk_list(*o), u),
        within(walk_components(copt(c)), u),
    ensures
        strings_view(final(visited)@) == strings_view(old(visited)@),
        r == circ_list(*o, copt(c), vs, u),
    decreases (u - vs).len(), *o, 0int,
{
    match o {
        Some(v) => circ_vec_exec(v, 0, c, visited, Ghost(u), Ghost(vs)),
        None => false,
    }
}

/// `circ_vec` by search.
fn circ_vec_exec(
    v: &Vec<SchemaOrRef>,
    i: usize,
    c: Option<&Components>,
    visited: &mut Vec<String>,
    Ghost(u): Ghost<Set<Seq<char>>>,
    Ghost(vs): Ghost<Set<Seq<char>>>,
) -> (r: bool)
    requires
        i <= v@.len(),
        u.finite(),
        vs == strings_view(old(visited)@).to_set(),
        within(walk_vec(*v, i as int), u),
        within(walk_components(copt(c)), u),
    ensures
        strings_view(final(visited)@) == strings_view(old(visited)@),
        r == circ_vec(*v, i as int, copt(c), vs, u),
    decreases (u - vs).len(), *v, v@.len() - i,
{
    if i < v.len() {
        proof {
            lemma_within_add(walk(v@[i as int]), walk_vec(*v, i + 1), u);
        }
        if circ_exec(&v[i], c, visited, Ghost(u), Ghost(vs)) {
            return true;
        }
        circ_vec_exec(v, i + 1, c, visited, Ghost(u), Ghost(vs))
    } else {
        false
    }
}

/// Detect circular references in a schema graph using DFS: whether, from
/// `schema`, following refs into the component schemas (through properties,
/// items, prefixItems, allOf, oneOf, anyOf and schema-valued
/// additionalProperties) meets a ref path that is already being followed
/// or is in `visited`. The refs followed are added to `visited` on the way
/// down and taken off on the way back, so `visited` ends as it began.
pub fn detect_circular_refs(
    schema: &SchemaOrRef,
    components: Option<&Components>,
    visited: &mut Vec<String>,
) -> (r: bool)
    ensures
        strings_view(final(visited)@) == strings_view(old(visited)@),
        r == circ(
            *schema,
            copt(components),
            strings_view(old(visited)@).to_set(),
            search_universe(*schema, copt(components)),
        ),
{
    let ghost w = walk(*schema);
    let ghost wc = walk_components(copt(components));
    let ghost u = search_universe(*schema, copt(components));
    proof {
        vstd::seq_lib::seq_to_set_is_finite(w + wc);
        assert forall|k: int| 0 <= k < (w + wc).len() implies u.contains(#[trigger] (w + wc)[k]) by {
            assert((w + wc).contains((w + wc)[k]));
        }
        lemma_within_add(w, wc, u);
    }
    circ_exec(schema, components, visited, Ghost(u), Ghost(strings_view(visited@).to_set()))
}

/// A ref of the form `#/components/schemas/{name}`, for a name without a
/// `/`, resolves to the component schema of that name (none when there are
/// no components or no schema of that name).
pub proof fn law_component_ref_resolves(name: Seq<char>, c: Option<Components>)
    requires
        !name.contains('/'),
    ensures
        spec_resolve_ref("#/components/schemas/"@ + name, c) == match c {
            Some(cc) => openapi::lookup(cc.schemas@, name),
            None => None,
        },
{
    reveal_strlit("#/components/schemas/");
    reveal_strlit("components/schemas/");
    reveal_strlit("/components/schemas/");
    let r = "#/components/schemas/"@ + name;
    assert(r[0] == '#' && r[1] == '/');
    assert(run_of(r, 1, '#') == 1);
    assert(run_of(r, 0, '#') == 1);
    let a = trim_start_char(r, '#');
    assert(a =~= "/components/schemas/"@ + name);
    assert(a[0] == '/' && a[1] == 'c');
    assert(run_of(a, 1, '/') == 1);
    assert(run_of(a, 0, '/') == 1);
    let t = trim_start_char(a, '/');
    let p = "components/schemas/"@;
    assert(t =~= p + name);
    assert(t.subrange(0, p.len() as int) =~= p);
    assert(t.skip(p.len() as int) =~= name);
}

/// `m` stands directly in `sch`: it is the schema of one of its properties,
/// its items, a member of its `prefixItems`, `allOf`, `oneOf` or `anyOf`, or
/// the schema of its `additionalProperties`.
pub open spec fn member_of(m: SchemaOrRef, sch: Schema) -> bool {
    ||| exists|i: int| 0 <= i < sch.properties@.len() && (#[trigger] sch.properties@[i]).1 == m
    ||| sch.items == Some(Box::new(m))
    ||| (sch.prefix_items matches Some(v) && v@.contains(m))
    ||| (sch.all_of matches Some(v) && v@.contains(m))
    ||| (sch.one_of matches Some(v) && v@.contains(m))
    ||| (sch.any_of matches Some(v) && v@.contains(m))
    ||| sch.additional_properties == Some(AdditionalProperties::Schema(Box::new(m)))
}

proof fn lemma_circ_vec_member(
    v: Vec<SchemaOrRef>,
    i: int,
    j: int,
    c: Option<Components>,
    visited: Set<Seq<char>>,
    u: Set<Seq<char>>,
)
    requires
        0 <= i <= j < v@.len(),
        circ(v@[j], c, visited, u),
    ensures
        circ_vec(v, i, c, visited, u),
    decreases j - i,
{
    if i < j {
        lemma_circ_vec_member(v, i + 1, j, c, visited, u);
    }
}

proof fn lemma_circ_props_member(
    v: Vec<(String, SchemaOrRef)>,
    i: int,
    j: int,
    c: Option<Components>,
    visited: Set<Seq<char>>,
    u: Set<Seq<char>>,
)
    requires
        0 <= i <= j < v@.len(),
        circ(v@[j].1, c, visited, u),
    ensures
        circ_props(v, i, c, visited, u),
    decreases j - i,
{
    if i < j {
        lemma_circ_props_member(v, i + 1, j, c, visited, u);
    }
}

proof fn lemma_circ_list_member(
    o: Option<Vec<SchemaOrRef>>,
    m: SchemaOrRef,
    c: Option<Components>,
    visited: Set<Seq<char>>,
    u: Set<Seq<char>>,
)
    requires
        o matches Some(v) && v@.contains(m),
        circ(m, c, visited, u),
    ensures
        circ_list(o, c, visited, u),
{
    let v = o->Some_0;
    let j = choose|j: int| 0 <= j < v@.len() && v@[j] == m;
    lemma_circ_vec_member(v, 0, j, c, visited, u);
}

/// A cycle anywhere inside a schema is a cycle of the schema: when a schema
/// that stands directly in `sch` (a property, the items, a `prefixItems`,
/// `allOf`, `oneOf` or `anyOf` member, or `additionalProperties`) leads back
/// into a ref being followed, so does `sch`; and a ref that is being
/// followed is met again as a cycle.
pub proof fn law_cycle_in_member_is_cycle(
    sch: Schema,
    m: SchemaOrRef,
    c: Option<Components>,
    visited: Set<Seq<char>>,
    u: Set<Seq<char>>,
    p: String,
)
    ensures
        (member_of(m, sch) && circ(m, c, visited, u)) ==> circ(
            SchemaOrRef::Schema(Box::new(sch)),
            c,
            visited,
            u,
        ),
        visited.contains(p@) ==> circ(SchemaOrRef::Ref { ref_path: p }, c, visited, u),
{
    let whole = SchemaOrRef::Schema(Box::new(sch));
    assert(circ(whole, c, visited, u) == (circ_props(sch.properties, 0, c, visited, u) || circ_item(
        sch.items,
        c,
        visited,
        u,
    ) || circ_list(sch.prefix_items, c, visited, u) || circ_list(sch.all_of, c, visited, u)
        || circ_list(sch.one_of, c, visited, u) || circ_list(sch.any_of, c, visited, u)
        || circ_extra(sch.additional_properties, c, visited, u)));
    if member_of(m, sch) && circ(m, c, visited, u) {
        if exists|i: int| 0 <= i < sch.properties@.len() && (#[trigger] sch.properties@[i]).1 == m {
            let i = choose|i: int| 0 <= i < sch.properties@.len() && (#[trigger] sch.properties@[i]).1 == m;
            lemma_circ_props_member(sch.properties, 0, i, c, visited, u);
        } else if sch.items == Some(Box::new(m)) {
        } else if sch.prefix_items matches Some(v) && v@.contains(m) {
            lemma_circ_list_member(sch.prefix_items, m, c, visited, u);
        } else if sch.all_of matches Some(v) && v@.contains(m) {
            lemma_circ_list_member(sch.all_of, m, c, visited, u);
        } else if sch.one_of matches Some(v) && v@.contains(m) {
            lemma_circ_list_member(sch.one_of, m, c, visited, u);
        } else if sch.any_of matches Some(v) && v@.contains(m) {
            lemma_circ_list_member(sch.any_of, m, c, visited, u);
        }
    }
}

} // verus!
