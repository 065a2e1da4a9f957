//! External `$ref` bookkeeping for multi-file specs: collecting the refs that
//! point into other files and rewriting them to local refs once the other
//! file's schemas have been merged in.
use vstd::prelude::*;

use crate::openapi::{
    AdditionalProperties, OpenApiSpec, Operation, ParameterOrRef, RequestBodyOrRef, ResponseOrRef,
    Schema, SchemaOrRef,
};
use crate::openapi;
use crate::text;

verus! {

/// A `$ref` path after the external-file rewrite for `file_part`: when it
/// starts with `file_part` and holds a `#`, only the part from the first `#`
/// on is kept.
pub open spec fn rewritten_ref(r: Seq<char>, file_part: Seq<char>) -> Seq<char> {
    if text::has_prefix(r, file_part) && r.contains('#') {
        r.skip(text::find_char(r, 0, '#'))
    } else {
        r
    }
}

/// Rewrite a single external $ref like "./models.yaml#/components/schemas/Pet"
/// to a local $ref "#/components/schemas/Pet".
pub fn rewrite_single_ref(ref_path: &mut String, file_part: &str)
    ensures
        final(ref_path)@ == rewritten_ref(old(ref_path)@, file_part@),
{
    let s = text::chars_of(ref_path.as_str());
    let f = text::chars_of(file_part);
    if !text::starts_with(s.as_slice(), f.as_slice()) {
        return;
    }
    let mut i: usize = 0;
    while i < s.len() && s[i] != '#'
        invariant
            0 <= i <= s.len(),
            forall|k: int| 0 <= k < i ==> s@[k] != '#',
            text::find_char(s@, i as int, '#') == text::find_char(s@, 0, '#'),
        decreases s.len() - i,
    {
        i = i + 1;
    }
    if i == s.len() {
        assert(!s@.contains('#'));
        return;
    }
    let mut out: Vec<char> = Vec::new();
    let mut k: usize = i;
    while k < s.len()
        invariant
            i <= k <= s.len(),
            out@ == s@.subrange(i as int, k as int),
        decreases s.len() - k,
    {
        out.push(s[k]);
        k = k + 1;
    }
    assert(out@ =~= s@.skip(i as int));
    *ref_path = text::string_of(out.as_slice());
}

/// `b` is `a` with every `$ref` path in it, at any depth of properties,
/// items, allOf, oneOf, anyOf and additionalProperties, rewritten for
/// `file_part`; nothing else differs.
pub open spec fn schema_rewritten(a: SchemaOrRef, b: SchemaOrRef, file_part: Seq<char>) -> bool
    decreases a,
{
    match (a, b) {
        (SchemaOrRef::Ref { ref_path: x }, SchemaOrRef::Ref { ref_path: y }) => y@ == rewritten_ref(
            x@,
            file_part,
        ),
        (SchemaOrRef::Schema(sa), SchemaOrRef::Schema(sb)) => {
            &&& sa.properties@.len() == sb.properties@.len()
            &&& forall|i: int|
                0 <= i < sa.properties@.len() ==> (#[trigger] sa.properties@[i]).0 == sb.properties@[i].0
                    && schema_rewritten(sa.properties@[i].1, sb.properties@[i].1, file_part)
            &&& match (sa.items, sb.items) {
                (Some(x), Some(y)) => schema_rewritten(*x, *y, file_part),
                (None, None) => true,
                _ => false,
            }
            &&& list_rewritten(sa.all_of, sb.all_of, file_part)
            &&& list_rewritten(sa.one_of, sb.one_of, file_part)
            &&& list_rewritten(sa.any_of, sb.any_of, file_part)
            &&& match (sa.additional_properties, sb.additional_properties) {
                (
                    Some(AdditionalProperties::Schema(x)),
                    Some(AdditionalProperties::Schema(y)),
                ) => schema_rewritten(*x, *y, file_part),
                (Some(AdditionalProperties::Bool(x)), Some(AdditionalProperties::Bool(y))) => x
                    == y,
                (None, None) => true,
                _ => false,
            }
            &&& sa.schema_type == sb.schema_type
            &&& sa.format == sb.format
            &&& sa.required == sb.required
            &&& sa.prefix_items == sb.prefix_items
            &&& sa.enum_values == sb.enum_values
            &&& sa.discriminator == sb.discriminator
            &&& sa.nullable == sb.nullable
            &&& sa.read_only == sb.read_only
            &&& sa.description == sb.description
            &&& sa.default == sb.default
            &&& sa.min_length == sb.min_length
            &&& sa.max_length == sb.max_length
            &&& sa.pattern == sb.pattern
            &&& sa.minimum == sb.minimum
            &&& sa.maximum == sb.maximum
            &&& sa.exclusive_minimum == sb.exclusive_minimum
            &&& sa.exclusive_maximum == sb.exclusive_maximum
            &&& sa.multiple_of == sb.multiple_of
            &&& sa.min_items == sb.min_items
            &&& sa.max_items == sb.max_items
            &&& sa.defs == sb.defs
        },
        _ => false,
    }
}

/// Two optional schema lists that `schema_rewritten` relates element by element.
pub open spec fn list_rewritten(
    a: Option<Vec<SchemaOrRef>>,
    b: Option<Vec<SchemaOrRef>>,
    file_part: Seq<char>,
) -> bool
    decreases a,
{
    match (a, b) {
        (Some(x), Some(y)) => {
            &&& x@.len() == y@.len()
            &&& forall|i: int|
                0 <= i < x@.len() ==> schema_rewritten(
                    #[trigger] x@[i],
                    y@[i],
                    file_part,
                )
        },
        (None, None) => true,
        _ => false,
    }
}

/// Rewrites every `$ref` path in a schema, at any depth of properties, items,
/// allOf, oneOf, anyOf and additionalProperties, for `file_part`.
pub fn rewrite_refs_in_schema_or_ref(schema_or_ref: &mut SchemaOrRef, file_part: &str)
    ensures
        schema_rewritten(*old(schema_or_ref), *final(schema_or_ref), file_part@),
    decreases *old(schema_or_ref), 0int,
{
    match schema_or_ref {
        SchemaOrRef::Ref { ref_path } => {
            rewrite_single_ref(ref_path, file_part);
        },
        SchemaOrRef::Schema(schema) => {
            rewrite_refs_in_props(&mut schema.properties, file_part);
            match &mut schema.items {
                Some(items) => {
                    rewrite_refs_in_schema_or_ref(&mut **items, file_part);
                },
                None => {},
            }
            rewrite_refs_in_list(&mut schema.all_of, file_part);
            rewrite_refs_in_list(&mut schema.one_of, file_part);
            rewrite_refs_in_list(&mut schema.any_of, file_part);
            match &mut schema.additional_properties {
                Some(AdditionalProperties::Schema(ap)) => {
                    rewrite_refs_in_schema_or_ref(&mut **ap, file_part);
                },
                _ => {},
            }
        },
    }
}

/// Rewrites the `$ref` paths in each value of `props`.
fn rewrite_refs_in_props(props: &mut Vec<(String, SchemaOrRef)>, file_part: &str)
    ensures
        final(props)@.len() == old(props)@.len(),
        forall|i: int|
            0 <= i < old(props)@.len() ==> (#[trigger] old(props)@[i]).0 == final(props)@[i].0
                && schema_rewritten(old(props)@[i].1, final(props)@[i].1, file_part@),
    decreases *old(props), 1int,
{
    let mut i: usize = 0;
    while i < props.len()
        invariant
            0 <= i <= props@.len(),
            props@.len() == old(props)@.len(),
            forall|k: int|
                0 <= k < i ==> (#[trigger] old(props)@[k]).0 == props@[k].0 && schema_rewritten(
                    old(props)@[k].1,
                    props@[k].1,
                    file_part@,
                ),
            forall|k: int| i <= k < props@.len() ==> props@[k] == old(props)@[k],
        decreases props@.len() - i,
    {
        rewrite_refs_in_schema_or_ref(&mut props[i].1, file_part);
        i = i + 1;
    }
}

/// Rewrites the `$ref` paths in each schema of an optional list.
fn rewrite_refs_in_list(list: &mut Option<Vec<SchemaOrRef>>, file_part: &str)
    ensures
        list_rewritten(*old(list), *final(list), file_part@),
    decreases *old(list), 1int,
{
    match list {
        Some(v) => {
            let ghost v0 = v@;
            let mut i: usize = 0;
            while i < v.len()
                invariant
                    0 <= i <= v@.len(),
                    v@.len() == v0.len(),
                    forall|k: int|
                        0 <= k < i ==> schema_rewritten(#[trigger] v0[k], v@[k], file_part@),
                    forall|k: int| i <= k < v@.len() ==> v@[k] == v0[k],
                    *old(list) matches Some(ov) && ov@ == v0,
                decreases v@.len() - i,
            {
                proof {
                    let ov = old(list)->Some_0;
                    assert(decreases_to!(ov => ov@[i as int]));
                }
                rewrite_refs_in_schema_or_ref(&mut v[i], file_part);
                i = i + 1;
            }
        },
        None => {},
    }
}

/// The `$ref` paths that do not start with `#`, in a schema, at any depth of
/// properties, items, allOf, oneOf, anyOf and additionalProperties, in
/// traversal order.
pub open spec fn schema_refs(s: SchemaOrRef) -> Seq<Seq<char>>
    decreases s, 0int,
{
    match s {
        SchemaOrRef::Ref { ref_path } => if !text::has_prefix(ref_path@, "#"@) {
            seq![ref_path@]
        } else {
            seq![]
        },
        SchemaOrRef::Schema(sch) => props_refs(sch.properties, 0) + item_refs(sch.items)
            + list_refs(sch.all_of, 0) + list_refs(sch.one_of, 0) + list_refs(sch.any_of, 0)
            + extra_refs(sch.additional_properties),
    }
}

/// `schema_refs` of an optional items schema.
pub open spec fn item_refs(o: Option<Box<SchemaOrRef>>) -> Seq<Seq<char>>
    decreases o, 0int,
{
    match o {
        Some(it) => schema_refs(*it),
        None => seq![],
    }
}

/// `schema_refs` of a schema-valued `additionalProperties`.
pub open spec fn extra_refs(o: Option<AdditionalProperties>) -> Seq<Seq<char>>
    decreases o, 0int,
{
    match o {
        Some(AdditionalProperties::Schema(ap)) => schema_refs(*ap),
        _ => seq![],
    }
}

/// `schema_refs` of the values of `v` from index `i` on.
pub open spec fn props_refs(v: Vec<(String, SchemaOrRef)>, i: int) -> Seq<Seq<char>>
    decreases v, v@.len() - i,
{
    if 0 <= i < v@.len() {
        schema_refs(v@[i].1) + props_refs(v, i + 1)
    } else {
        seq![]
    }
}

/// `schema_refs` of the schemas of an optional list from index `i` on.
pub open spec fn list_refs(o: Option<Vec<SchemaOrRef>>, i: int) -> Seq<Seq<char>>
    decreases o, 0int,
{
    match o {
        Some(v) => vec_refs(v, i),
        None => seq![],
    }
}

/// `schema_refs` of the schemas of `v` from index `i` on.
pub open spec fn vec_refs(v: Vec<SchemaOrRef>, i: int) -> Seq<Seq<char>>
    decreases v, v@.len() - i,
{
    if 0 <= i < v@.len() {
        schema_refs(v@[i]) + vec_refs(v, i + 1)
    } else {
        seq![]
    }
}

/// Appends `x` to `refs`.
fn push_ref(refs: &mut Vec<String>, x: &String)
    ensures
        crate::ir::strings_view(final(refs)@) == crate::ir::strings_view(old(refs)@).push(x@),
{
    let ghost before = crate::ir::strings_view(refs@);
    refs.push(x.clone());
    assert(crate::ir::strings_view(refs@) =~= before.push(x@));
}

proof fn lemma_assoc(a: Seq<Seq<char>>, b: Seq<Seq<char>>, c: Seq<Seq<char>>)
    ensures
        (a + b) + c == a + (b + c),
{
    assert((a + b) + c =~= a + (b + c));
}

/// Appends the `$ref` paths of `schema_or_ref` that point outside the
/// document (those not starting with `#`), in traversal order.
pub fn collect_refs_from_schema_or_ref(schema_or_ref: &SchemaOrRef, refs: &mut Vec<String>)
    ensures
        crate::ir::strings_view(final(refs)@) == crate::ir::strings_view(old(refs)@)
            + schema_refs(*schema_or_ref),
    decreases *schema_or_ref, 0int,
{
    let ghost r0 = crate::ir::strings_view(refs@);
    match schema_or_ref {
        SchemaOrRef::Ref { ref_path } => {
            let c = text::chars_of(ref_path.as_str());
            let h = text::chars_of("#");
            if !text::starts_with(c.as_slice(), h.as_slice()) {
                push_ref(refs, ref_path);
            } else {
                assert(crate::ir::strings_view(refs@) =~= r0 + seq![]);
            }
        },
        SchemaOrRef::Schema(schema) => {
            let ghost a = props_refs(schema.properties, 0);
            let ghost b = item_refs(schema.items);
            let ghost c = list_refs(schema.all_of, 0);
            let ghost d = list_refs(schema.one_of, 0);
            let ghost e = list_refs(schema.any_of, 0);
            let ghost f = extra_refs(schema.additional_properties);
            collect_refs_from_props(&schema.properties, 0, refs);
            match &schema.items {
                Some(items) => collect_refs_from_schema_or_ref(&**items, refs),
                None => {
                    assert(crate::ir::strings_view(refs@) =~= r0 + a + b);
                },
            }
            collect_refs_from_list(&schema.all_of, refs);
            proof {
                lemma_assoc(r0, a + b, c);
            }
            collect_refs_from_list(&schema.one_of, refs);
            proof {
                lemma_assoc(r0, a + b + c, d);
            }
            collect_refs_from_list(&schema.any_of, refs);
            proof {
                lemma_assoc(r0, a + b + c + d, e);
            }
            match &schema.additional_properties {
                Some(AdditionalProperties::Schema(ap)) => collect_refs_from_schema_or_ref(
                    &**ap,
                    refs,
                ),
                _ => {
                    assert(crate::ir::strings_view(refs@) =~= r0 + (a + b + c + d + e) + f);
                },
            }
            proof {
                lemma_assoc(r0, a + b + c + d + e, f);
                lemma_assoc(r0, a, b);
            }
        },
    }
}

/// Appends the external `$ref` paths of the values of `props` from index `i` on.
fn collect_refs_from_props(props: &Vec<(String, SchemaOrRef)>, i: usize, refs: &mut Vec<String>)
    requires
        i <= props@.len(),
    ensures
        crate::ir::strings_view(final(refs)@) == crate::ir::strings_view(old(refs)@)
            + props_refs(*props, i as int),
    decreases *props, props@.len() - i,
{
    if i < props.len() {
        let ghost r0 = crate::ir::strings_view(refs@);
        collect_refs_from_schema_or_ref(&props[i].1, refs);
        collect_refs_from_props(props, i + 1, refs);
        proof {
            lemma_assoc(r0, schema_refs(props@[i as int].1), props_refs(*props, i + 1));
        }
    } else {
        assert(crate::ir::strings_view(refs@) =~= crate::ir::strings_view(refs@) + seq![]);
    }
}

/// Appends the external `$ref` paths of the schemas of an optional list.
fn collect_refs_from_list(list: &Option<Vec<SchemaOrRef>>, refs: &mut Vec<String>)
    ensures
        crate::ir::strings_view(final(refs)@) == crate::ir::strings_view(old(refs)@)
            + list_refs(*list, 0),
    decreases *list, 0int,
{
    match list {
        Some(v) => collect_refs_from_vec(v, 0, refs),
        None => {
            assert(crate::ir::strings_view(refs@) =~= crate::ir::strings_view(refs@) + seq![]);
        },
    }
}

/// Appends the external `$ref` paths of the schemas of `v` from index `i` on.
fn collect_refs_from_vec(v: &Vec<SchemaOrRef>, i: usize, refs: &mut Vec<String>)
    requires
        i <= v@.len(),
    ensures
        crate::ir::strings_view(final(refs)@) == crate::ir::strings_view(old(refs)@)
            + vec_refs(*v, i as int),
    decreases *v, v@.len() - i,
{
    if i < v.len() {
        let ghost r0 = crate::ir::strings_view(refs@);
        collect_refs_from_schema_or_ref(&v[i], refs);
        collect_refs_from_vec(v, i + 1, refs);
        proof {
            lemma_assoc(r0, schema_refs(v@[i as int]), vec_refs(*v, i + 1));
        }
    } else {
        assert(crate::ir::strings_view(refs@) =~= crate::ir::strings_view(refs@) + seq![]);
    }
}

// ---- Refs of a whole document ------------------------------------------------

/// `schema_refs` of each value of a schema map, in order.
pub open spec fn schemas_refs(m: Seq<(String, SchemaOrRef)>) -> Seq<Seq<char>>
    decreases m.len(),
{
    if m.len() == 0 {
        seq![]
    } else {
        schemas_refs(m.drop_last()) + schema_refs(m.last().1)
    }
}

/// The external refs of a list of parameters: `$ref`s that hold a `/` and
/// do not start with `#`.
pub open spec fn param_refs(ps: Seq<ParameterOrRef>) -> Seq<Seq<char>>
    decreases ps.len(),
{
    if ps.len() == 0 {
        seq![]
    } else {
        param_refs(ps.drop_last()) + match ps.last() {
            ParameterOrRef::Ref { ref_path } => if ref_path@.contains('/') && !text::has_prefix(
                ref_path@,
                "#"@,
            ) {
                seq![ref_path@]
            } else {
                seq![]
            },
            _ => seq![],
        }
    }
}

/// The external ref of a request body: a `$ref` that does not start with `#`.
pub open spec fn body_refs(b: Option<RequestBodyOrRef>) -> Seq<Seq<char>> {
    match b {
        Some(RequestBodyOrRef::Ref { ref_path }) => if !text::has_prefix(ref_path@, "#"@) {
            seq![ref_path@]
        } else {
            seq![]
        },
        _ => seq![],
    }
}

/// The external refs of the responses: `$ref`s that do not start with `#`.
pub open spec fn response_refs(rs: Seq<(String, ResponseOrRef)>) -> Seq<Seq<char>>
    decreases rs.len(),
{
    if rs.len() == 0 {
        seq![]
    } else {
        response_refs(rs.drop_last()) + match rs.last().1 {
            ResponseOrRef::Ref { ref_path } => if !text::has_prefix(ref_path@, "#"@) {
                seq![ref_path@]
            } else {
                seq![]
            },
            _ => seq![],
        }
    }
}

/// The external refs of one operation: parameters, then body, then responses.
pub open spec fn operation_refs(op: Operation) -> Seq<Seq<char>> {
    param_refs(op.parameters@) + body_refs(op.request_body) + response_refs(op.responses@)
}

/// The external refs of a list of (method, operation) pairs.
pub open spec fn ops_refs(ops: Seq<(Seq<char>, Operation)>) -> Seq<Seq<char>>
    decreases ops.len(),
{
    if ops.len() == 0 {
        seq![]
    } else {
        ops_refs(ops.drop_last()) + operation_refs(ops.last().1)
    }
}

/// The external refs of the operations of each path, in order.
pub open spec fn paths_refs(paths: Seq<(String, openapi::PathItem)>) -> Seq<Seq<char>>
    decreases paths.len(),
{
    if paths.len() == 0 {
        seq![]
    } else {
        paths_refs(paths.drop_last()) + ops_refs(openapi::spec_operations(paths.last().1))
    }
}

/// The external refs of a document, in traversal order, with repeats.
pub open spec fn raw_external_refs(spec: OpenApiSpec) -> Seq<Seq<char>> {
    component_refs(spec.components) + paths_refs(spec.paths@)
}

/// The external refs of the component schemas.
pub open spec fn component_refs(c: Option<openapi::Components>) -> Seq<Seq<char>> {
    match c {
        Some(c) => schemas_refs(c.schemas@),
        None => seq![],
    }
}

/// `Vec::dedup`: `s` without the elements equal to the one before them.
pub open spec fn dedup(s: Seq<Seq<char>>) -> Seq<Seq<char>>
    decreases s.len(),
{
    if s.len() <= 1 {
        s
    } else if s.last() == s[s.len() - 2] {
        dedup(s.drop_last())
    } else {
        dedup(s.drop_last()).push(s.last())
    }
}

/// The external refs of a document: sorted, without repeats.
pub open spec fn spec_external_refs(spec: OpenApiSpec) -> Seq<Seq<char>> {
    dedup(text::sort_seq(raw_external_refs(spec)))
}

/// Appends the external refs of every value of `schemas`.
pub fn collect_refs_from_schemas(schemas: &Vec<(String, SchemaOrRef)>, refs: &mut Vec<String>)
    ensures
        crate::ir::strings_view(final(refs)@) == crate::ir::strings_view(old(refs)@) + schemas_refs(schemas@),
{
    let ghost r0 = crate::ir::strings_view(refs@);
    let mut i: usize = 0;
    while i < schemas.len()
        invariant
            0 <= i <= schemas@.len(),
            crate::ir::strings_view(refs@) == r0 + schemas_refs(schemas@.take(i as int)),
        decreases schemas.len() - i,
    {
        collect_refs_from_schema_or_ref(&schemas[i].1, refs);
        proof {
            let t = schemas@.take(i + 1);
            assert(t.drop_last() =~= schemas@.take(i as int));
            lemma_assoc(r0, schemas_refs(schemas@.take(i as int)), schema_refs(schemas@[i as int].1));
        }
        i = i + 1;
    }
    assert(schemas@.take(schemas@.len() as int) =~= schemas@);
}

/// Appends `x` when `cond` holds.
fn push_ref_if(refs: &mut Vec<String>, cond: bool, x: &String)
    ensures
        crate::ir::strings_view(final(refs)@) == crate::ir::strings_view(old(refs)@) + if cond {
            seq![x@]
        } else {
            Seq::<Seq<char>>::empty()
        },
{
    if cond {
        push_ref(refs, x);
        assert(crate::ir::strings_view(old(refs)@).push(x@) =~= crate::ir::strings_view(old(refs)@) + seq![x@]);
    } else {
        assert(crate::ir::strings_view(refs@) =~= crate::ir::strings_view(refs@) + Seq::<Seq<char>>::empty());
    }
}

/// Whether `s` starts with `#`.
fn is_local(s: &String) -> (r: bool)
    ensures
        r == text::has_prefix(s@, "#"@),
{
    let c = text::chars_of(s.as_str());
    let h = text::chars_of("#");
    text::starts_with(c.as_slice(), h.as_slice())
}

/// Whether `s` holds `c`.
fn has_char(s: &String, c: char) -> (r: bool)
    ensures
        r == s@.contains(c),
{
    let v = text::chars_of(s.as_str());
    let mut i: usize = 0;
    while i < v.len()
        invariant
            0 <= i <= v@.len(),
            v@ == s@,
            forall|k: int| 0 <= k < i ==> v@[k] != c,
        decreases v.len() - i,
    {
        if v[i] == c {
            return true;
        }
        i = i + 1;
    }
    false
}

/// Appends the external refs of one operation.
fn collect_operation_refs(op: &Operation, refs: &mut Vec<String>)
    ensures
        crate::ir::strings_view(final(refs)@) == crate::ir::strings_view(old(refs)@) + operation_refs(*op),
{
    let ghost r0 = crate::ir::strings_view(refs@);
    let mut i: usize = 0;
    while i < op.parameters.len()
        invariant
            0 <= i <= op.parameters@.len(),
            crate::ir::strings_view(refs@) == r0 + param_refs(op.parameters@.take(i as int)),
        decreases op.parameters.len() - i,
    {
        let ghost before = crate::ir::strings_view(refs@);
        match &op.parameters[i] {
            ParameterOrRef::Ref { ref_path } => {
                let c = has_char(ref_path, '/') && !is_local(ref_path);
                push_ref_if(refs, c, ref_path);
            },
            _ => {
                assert(crate::ir::strings_view(refs@) =~= before + Seq::<Seq<char>>::empty());
            },
        }
        proof {
            let t = op.parameters@.take(i + 1);
            assert(t.drop_last() =~= op.parameters@.take(i as int));
            lemma_assoc(r0, param_refs(op.parameters@.take(i as int)), crate::ir::strings_view(refs@).skip(
                before.len() as int,
            ));
            assert(crate::ir::strings_view(refs@) =~= before + crate::ir::strings_view(refs@).skip(before.len() as int));
        }
        i = i + 1;
    }
    assert(op.parameters@.take(op.parameters@.len() as int) =~= op.parameters@);
    let ghost r1 = crate::ir::strings_view(refs@);
    match &op.request_body {
        Some(RequestBodyOrRef::Ref { ref_path }) => {
            let c = !is_local(ref_path);
            push_ref_if(refs, c, ref_path);
        },
        _ => {
            assert(crate::ir::strings_view(refs@) =~= r1 + Seq::<Seq<char>>::empty());
        },
    }
    let ghost r2 = crate::ir::strings_view(refs@);
    let mut j: usize = 0;
    while j < op.responses.len()
        invariant
            0 <= j <= op.responses@.len(),
            crate::ir::strings_view(refs@) == r2 + response_refs(op.responses@.take(j as int)),
        decreases op.responses.len() - j,
    {
        let ghost before = crate::ir::strings_view(refs@);
        match &op.responses[j].1 {
            ResponseOrRef::Ref { ref_path } => {
                let c = !is_local(ref_path);
                push_ref_if(refs, c, ref_path);
            },
            _ => {
                assert(crate::ir::strings_view(refs@) =~= before + Seq::<Seq<char>>::empty());
            },
        }
        proof {
            let t = op.responses@.take(j + 1);
            assert(t.drop_last() =~= op.responses@.take(j as int));
            lemma_assoc(r2, response_refs(op.responses@.take(j as int)), crate::ir::strings_view(refs@).skip(
                before.len() as int,
            ));
            assert(crate::ir::strings_view(refs@) =~= before + crate::ir::strings_view(refs@).skip(before.len() as int));
        }
        j = j + 1;
    }
    assert(op.responses@.take(op.responses@.len() as int) =~= op.responses@);
    proof {
        lemma_assoc(r0, param_refs(op.parameters@), body_refs(op.request_body));
        lemma_assoc(
            r0,
            param_refs(op.parameters@) + body_refs(op.request_body),
            response_refs(op.responses@),
        );
    }
}

/// The character vectors of a list of strings.
fn to_char_lists(v: &Vec<String>) -> (r: Vec<Vec<char>>)
    ensures
        text::views(r@) == crate::ir::strings_view(v@),
{
    let mut r: Vec<Vec<char>> = Vec::new();
    let mut i: usize = 0;
    while i < v.len()
        invariant
            0 <= i <= v@.len(),
            text::views(r@) == crate::ir::strings_view(v@).take(i as int),
        decreases v.len() - i,
    {
        let c = text::chars_of(v[i].as_str());
        let ghost before = text::views(r@);
        let ghost cv = c@;
        assert(cv == v@[i as int]@);
        r.push(c);
        assert(text::views(r@) =~= before.push(cv));
        assert(crate::ir::strings_view(v@).take(i + 1) =~= crate::ir::strings_view(v@).take(i as int).push(cv));
        i = i + 1;
    }
    assert(crate::ir::strings_view(v@).take(v@.len() as int) =~= crate::ir::strings_view(v@));
    r
}

/// `v` sorted, with repeats dropped, as strings.
pub fn sorted_unique(v: &Vec<String>) -> (r: Vec<String>)
    ensures
        crate::ir::strings_view(r@) == dedup(text::sort_seq(crate::ir::strings_view(v@))),
{
    let sorted = text::sort_lines(to_char_lists(v));
    let ghost s = text::views(sorted@);
    let mut out: Vec<String> = Vec::new();
    let mut i: usize = 0;
    while i < sorted.len()
        invariant
            0 <= i <= sorted@.len(),
            s == text::views(sorted@),
            crate::ir::strings_view(out@) == dedup(s.take(i as int)),
            i > 0 ==> out@.len() > 0 && crate::ir::strings_view(out@).last() == s[i - 1],
        decreases sorted.len() - i,
    {
        let ghost t = s.take(i + 1);
        assert(t.drop_last() =~= s.take(i as int));
        if i > 0 && text::slices_equal(sorted[i].as_slice(), sorted[i - 1].as_slice()) {
            assert(t.last() == t[t.len() - 2]);
        } else {
            let x = text::string_of(sorted[i].as_slice());
            let ghost before = crate::ir::strings_view(out@);
            out.push(x);
            assert(crate::ir::strings_view(out@) =~= before.push(s[i as int]));
            proof {
                if i > 0 {
                    assert(t.last() != t[t.len() - 2]);
                } else {
                    assert(t =~= seq![s[0]]);
                    assert(crate::ir::strings_view(out@) =~= seq![s[0]]);
                }
            }
        }
        i = i + 1;
    }
    assert(s.take(sorted@.len() as int) =~= s);
    out
}

/// Collect all $ref strings that reference external files, sorted and
/// without repeats: those of the component schemas (at any depth), then the
/// parameter refs that hold a `/`, the request body refs and the response
/// refs of each operation, all but those that start with `#`.
pub fn collect_external_refs(spec: &OpenApiSpec) -> (r: Vec<String>)
    ensures
        crate::ir::strings_view(r@) == spec_external_refs(*spec),
{
    let mut refs: Vec<String> = Vec::new();
    match &spec.components {
        Some(c) => collect_refs_from_schemas(&c.schemas, &mut refs),
        None => {},
    }
    assert(crate::ir::strings_view(refs@) =~= component_refs(spec.components));
    let ghost r0 = crate::ir::strings_view(refs@);
    let mut i: usize = 0;
    while i < spec.paths.len()
        invariant
            0 <= i <= spec.paths@.len(),
            crate::ir::strings_view(refs@) == r0 + paths_refs(spec.paths@.take(i as int)),
        decreases spec.paths.len() - i,
    {
        let ops = spec.paths[i].1.operations();
        let ghost ov = openapi::ops_view(ops@);
        let ghost r1 = crate::ir::strings_view(refs@);
        let mut j: usize = 0;
        while j < ops.len()
            invariant
                0 <= j <= ops@.len(),
                ov == openapi::ops_view(ops@),
                crate::ir::strings_view(refs@) == r1 + ops_refs(ov.take(j as int)),
            decreases ops.len() - j,
        {
            let ghost before = crate::ir::strings_view(refs@);
            collect_operation_refs(ops[j].1, &mut refs);
            proof {
                let t = ov.take(j + 1);
                assert(t.drop_last() =~= ov.take(j as int));
                assert(t.last().1 == *ops@[j as int].1);
                lemma_assoc(r1, ops_refs(ov.take(j as int)), operation_refs(*ops@[j as int].1));
            }
            j = j + 1;
        }
        proof {
            assert(ov.take(ov.len() as int) =~= ov);
            let t = spec.paths@.take(i + 1);
            assert(t.drop_last() =~= spec.paths@.take(i as int));
            lemma_assoc(r0, paths_refs(spec.paths@.take(i as int)), ops_refs(ov));
        }
        i = i + 1;
    }
    assert(spec.paths@.take(spec.paths@.len() as int) =~= spec.paths@);
    sorted_unique(&refs)
}

// ---- Rewriting the refs of a whole document -------------------------------------

/// Two schema maps with the same keys whose values `schema_rewritten` relates.
pub open spec fn schemas_rewritten(
    a: Seq<(String, SchemaOrRef)>,
    b: Seq<(String, SchemaOrRef)>,
    file_part: Seq<char>,
) -> bool {
    &&& a.len() == b.len()
    &&& forall|i: int|
        0 <= i < a.len() ==> (#[trigger] a[i]).0 == b[i].0 && schema_rewritten(
            a[i].1,
            b[i].1,
            file_part,
        )
}

/// A parameter with its `$ref` rewritten (an inline one is left alone).
pub open spec fn param_rewritten(a: ParameterOrRef, b: ParameterOrRef, f: Seq<char>) -> bool {
    match (a, b) {
        (ParameterOrRef::Ref { ref_path: x }, ParameterOrRef::Ref { ref_path: y }) => y@
            == rewritten_ref(x@, f),
        _ => a == b,
    }
}

/// A request body with its `$ref` rewritten (an inline one is left alone).
pub open spec fn body_rewritten(
    a: Option<RequestBodyOrRef>,
    b: Option<RequestBodyOrRef>,
    f: Seq<char>,
) -> bool {
    match (a, b) {
        (
            Some(RequestBodyOrRef::Ref { ref_path: x }),
            Some(RequestBodyOrRef::Ref { ref_path: y }),
        ) => y@ == rewritten_ref(x@, f),
        _ => a == b,
    }
}

/// A response with its `$ref` rewritten (an inline one is left alone).
pub open spec fn response_rewritten(a: ResponseOrRef, b: ResponseOrRef, f: Seq<char>) -> bool {
    match (a, b) {
        (ResponseOrRef::Ref { ref_path: x }, ResponseOrRef::Ref { ref_path: y }) => y@
            == rewritten_ref(x@, f),
        _ => a == b,
    }
}

/// An operation whose parameter, request body and response `$ref`s are
/// rewritten; nothing else differs.
pub open spec fn operation_rewritten(a: Operation, b: Operation, f: Seq<char>) -> bool {
    &&& a.operation_id == b.operation_id
    &&& a.summary == b.summary
    &&& a.tags == b.tags
    &&& a.parameters@.len() == b.parameters@.len()
    &&& forall|i: int|
        0 <= i < a.parameters@.len() ==> param_rewritten(
            #[trigger] a.parameters@[i],
            b.parameters@[i],
            f,
        )
    &&& body_rewritten(a.request_body, b.request_body, f)
    &&& a.responses@.len() == b.responses@.len()
    &&& forall|i: int|
        0 <= i < a.responses@.len() ==> (#[trigger] a.responses@[i]).0 == b.responses@[i].0
            && response_rewritten(a.responses@[i].1, b.responses@[i].1, f)
}

/// Both absent, or both present and `operation_rewritten`.
pub open spec fn opt_operation_rewritten(
    a: Option<Operation>,
    b: Option<Operation>,
    f: Seq<char>,
) -> bool {
    match (a, b) {
        (Some(x), Some(y)) => operation_rewritten(x, y, f),
        (None, None) => true,
        _ => false,
    }
}

/// A path item whose operations are `operation_rewritten`; its own
/// parameters are left alone.
pub open spec fn path_item_rewritten(a: openapi::PathItem, b: openapi::PathItem, f: Seq<char>) -> bool {
    &&& a.parameters == b.parameters
    &&& opt_operation_rewritten(a.get, b.get, f)
    &&& opt_operation_rewritten(a.post, b.post, f)
    &&& opt_operation_rewritten(a.put, b.put, f)
    &&& opt_operation_rewritten(a.patch, b.patch, f)
    &&& opt_operation_rewritten(a.delete, b.delete, f)
}

/// `b` is `a` with the external refs for `f` rewritten to local ones: in the
/// component schemas (at any depth) and in the parameters, request bodies
/// and responses of the operations. Nothing else differs.
pub open spec fn spec_rewritten(a: OpenApiSpec, b: OpenApiSpec, f: Seq<char>) -> bool {
    &&& a.openapi == b.openapi
    &&& a.info == b.info
    &&& a.paths@.len() == b.paths@.len()
    &&& forall|i: int|
        0 <= i < a.paths@.len() ==> (#[trigger] a.paths@[i]).0 == b.paths@[i].0
            && path_item_rewritten(a.paths@[i].1, b.paths@[i].1, f)
    &&& match (a.components, b.components) {
        (Some(ca), Some(cb)) => {
            &&& schemas_rewritten(ca.schemas@, cb.schemas@, f)
            &&& ca.parameters == cb.parameters
            &&& ca.request_bodies == cb.request_bodies
            &&& ca.responses == cb.responses
        },
        (None, None) => true,
        _ => false,
    }
}

/// Rewrites the refs in each value of a schema map.
pub fn rewrite_refs_in_schemas(schemas: &mut Vec<(String, SchemaOrRef)>, file_part: &str)
    ensures
        schemas_rewritten(old(schemas)@, final(schemas)@, file_part@),
{
    let mut i: usize = 0;
    while i < schemas.len()
        invariant
            0 <= i <= schemas@.len(),
            schemas@.len() == old(schemas)@.len(),
            forall|k: int|
                0 <= k < i ==> (#[trigger] old(schemas)@[k]).0 == schemas@[k].0 && schema_rewritten(
                    old(schemas)@[k].1,
                    schemas@[k].1,
                    file_part@,
                ),
            forall|k: int| i <= k < schemas@.len() ==> schemas@[k] == old(schemas)@[k],
        decreases schemas@.len() - i,
    {
        rewrite_refs_in_schema_or_ref(&mut schemas[i].1, file_part);
        i = i + 1;
    }
}

/// Rewrites the parameter, request body and response refs of an operation.
fn rewrite_operation(op: &mut Operation, file_part: &str)
    ensures
        operation_rewritten(*old(op), *final(op), file_part@),
{
    let mut i: usize = 0;
    while i < op.parameters.len()
        invariant
            0 <= i <= op.parameters@.len(),
            op.parameters@.len() == old(op).parameters@.len(),
            op.operation_id == old(op).operation_id,
            op.summary == old(op).summary,
            op.tags == old(op).tags,
            op.request_body == old(op).request_body,
            op.responses == old(op).responses,
            forall|k: int|
                0 <= k < i ==> param_rewritten(
                    #[trigger] old(op).parameters@[k],
                    op.parameters@[k],
                    file_part@,
                ),
            forall|k: int| i <= k < op.parameters@.len() ==> op.parameters@[k] == old(
                op,
            ).parameters@[k],
        decreases op.parameters@.len() - i,
    {
        match &mut op.parameters[i] {
            ParameterOrRef::Ref { ref_path } => rewrite_single_ref(ref_path, file_part),
            _ => {},
        }
        i = i + 1;
    }
    match &mut op.request_body {
        Some(RequestBodyOrRef::Ref { ref_path }) => rewrite_single_ref(ref_path, file_part),
        _ => {},
    }
    let mut j: usize = 0;
    while j < op.responses.len()
        invariant
            0 <= j <= op.responses@.len(),
            op.responses@.len() == old(op).responses@.len(),
            op.operation_id == old(op).operation_id,
            op.summary == old(op).summary,
            op.tags == old(op).tags,
            body_rewritten(old(op).request_body, op.request_body, file_part@),
            op.parameters@.len() == old(op).parameters@.len(),
            forall|k: int|
                0 <= k < op.parameters@.len() ==> param_rewritten(
                    #[trigger] old(op).parameters@[k],
                    op.parameters@[k],
                    file_part@,
                ),
            forall|k: int|
                0 <= k < j ==> (#[trigger] old(op).responses@[k]).0 == op.responses@[k].0
                    && response_rewritten(old(op).responses@[k].1, op.responses@[k].1, file_part@),
            forall|k: int| j <= k < op.responses@.len() ==> op.responses@[k] == old(
                op,
            ).responses@[k],
        decreases op.responses@.len() - j,
    {
        match &mut op.responses[j].1 {
            ResponseOrRef::Ref { ref_path } => rewrite_single_ref(ref_path, file_part),
            _ => {},
        }
        j = j + 1;
    }
}

/// Rewrites an operation's refs when it is present.
fn rewrite_opt_operation(op: &mut Option<Operation>, file_part: &str)
    ensures
        opt_operation_rewritten(*old(op), *final(op), file_part@),
{
    match op {
        Some(o) => rewrite_operation(o, file_part),
        None => {},
    }
}

/// Rewrite external $ref paths to local #/components/schemas/ paths.
pub fn rewrite_refs(spec: &mut OpenApiSpec, file_part: &str, _pointer_part: &str)
    ensures
        spec_rewritten(*old(spec), *final(spec), file_part@),
{
    match &mut spec.components {
        Some(components) => rewrite_refs_in_schemas(&mut components.schemas, file_part),
        None => {},
    }
    let mut i: usize = 0;
    while i < spec.paths.len()
        invariant
            0 <= i <= spec.paths@.len(),
            spec.paths@.len() == old(spec).paths@.len(),
            spec.openapi == old(spec).openapi,
            spec.info == old(spec).info,
            match (old(spec).components, spec.components) {
                (Some(ca), Some(cb)) => {
                    &&& schemas_rewritten(ca.schemas@, cb.schemas@, file_part@)
                    &&& ca.parameters == cb.parameters
                    &&& ca.request_bodies == cb.request_bodies
                    &&& ca.responses == cb.responses
                },
                (None, None) => true,
                _ => false,
            },
            forall|k: int|
                0 <= k < i ==> (#[trigger] old(spec).paths@[k]).0 == spec.paths@[k].0
                    && path_item_rewritten(old(spec).paths@[k].1, spec.paths@[k].1, file_part@),
            forall|k: int| i <= k < spec.paths@.len() ==> spec.paths@[k] == old(spec).paths@[k],
        decreases spec.paths@.len() - i,
    {
        let item = &mut spec.paths[i].1;
        rewrite_opt_operation(&mut item.get, file_part);
        rewrite_opt_operation(&mut item.post, file_part);
        rewrite_opt_operation(&mut item.put, file_part);
        rewrite_opt_operation(&mut item.patch, file_part);
        rewrite_opt_operation(&mut item.delete, file_part);
        i = i + 1;
    }
}

/// `dedup` keeps the last element and only elements of `s`, and drops none
/// of them.
proof fn lemma_dedup_elements(s: Seq<Seq<char>>)
    ensures
        s.len() > 0 ==> dedup(s).len() > 0 && dedup(s).last() == s.last(),
        forall|x: Seq<char>| #[trigger] dedup(s).contains(x) <==> s.contains(x),
    decreases s.len(),
{
    if s.len() > 1 {
        let d = s.drop_last();
        lemma_dedup_elements(d);
        assert forall|x: Seq<char>| #[trigger] dedup(s).contains(x) <==> s.contains(x) by {
            let dd = dedup(d);
            if s.contains(x) {
                let k = choose|k: int| 0 <= k < s.len() && s[k] == x;
                let in_d = k < s.len() - 1 || s.last() == s[s.len() - 2];
                if in_d {
                    if k < s.len() - 1 {
                        assert(d[k] == x);
                    } else {
                        assert(d[d.len() - 1] == x);
                    }
                    assert(d.contains(x));
                    assert(dd.contains(x));
                    let k2 = choose|k2: int| 0 <= k2 < dd.len() && dd[k2] == x;
                    if s.last() != s[s.len() - 2] {
                        assert(dedup(s) == dd.push(s.last()));
                        assert(dd.push(s.last())[k2] == x);
                    }
                } else {
                    assert(dedup(s) == dd.push(s.last()));
                    assert(dd.push(s.last())[dd.len() as int] == x);
                }
            }
            if dedup(s).contains(x) {
                if s.last() == s[s.len() - 2] {
                    assert(dd.contains(x));
                    let k = choose|k: int| 0 <= k < d.len() && d[k] == x;
                    assert(s[k] == x);
                } else {
                    let r = dd.push(s.last());
                    assert(dedup(s) == r);
                    let k = choose|k: int| 0 <= k < r.len() && r[k] == x;
                    if k < r.len() - 1 {
                        assert(dd[k] == x);
                        assert(dd.contains(x));
                        let m = choose|m: int| 0 <= m < d.len() && d[m] == x;
                        assert(s[m] == x);
                    } else {
                        assert(s[s.len() - 1] == x);
                    }
                }
            }
        }
    }
}

/// `dedup` of a sorted sequence is strictly ascending.
proof fn lemma_dedup_strict(s: Seq<Seq<char>>)
    requires
        text::sorted(s),
    ensures
        forall|i: int, j: int|
            0 <= i < j < dedup(s).len() ==> text::lex_le(#[trigger] dedup(s)[i], #[trigger] dedup(s)[j])
                && dedup(s)[i] != dedup(s)[j],
    decreases s.len(),
{
    if s.len() > 1 {
        let d = s.drop_last();
        assert(text::sorted(d)) by {
            assert forall|i: int, j: int| 0 <= i < j < d.len() implies text::lex_le(d[i], d[j]) by {
                assert(d[i] == s[i] && d[j] == s[j]);
            }
        }
        lemma_dedup_strict(d);
        lemma_dedup_elements(d);
        if s.last() != s[s.len() - 2] {
            let dd = dedup(d);
            let r = dd.push(s.last());
            assert(dedup(s) == r);
            assert forall|i: int, j: int| 0 <= i < j < r.len() implies text::lex_le(
                #[trigger] r[i],
                #[trigger] r[j],
            ) && r[i] != r[j] by {
                if j == r.len() - 1 {
                    assert(r[j] == s.last());
                    assert(r[i] == dd[i]);
                    // dd[i] is an element of d, so at most its last, which is below s.last()
                    assert(dd.contains(dd[i]));
                    let m = choose|m: int| 0 <= m < d.len() && d[m] == dd[i];
                    assert(text::lex_le(s[m], s[s.len() - 1]));
                    if dd[i] == s.last() {
                        assert(text::lex_le(s[s.len() - 2], s[s.len() - 1]));
                        if m < d.len() - 1 {
                            assert(text::lex_le(s[m], s[s.len() - 2]));
                            text::lemma_lex_antisym(s[s.len() - 2], s[s.len() - 1]);
                        }
                    }
                } else {
                    assert(r[i] == dd[i] && r[j] == dd[j]);
                }
            }
        }
    }
}

/// The external refs of a document come out in strictly ascending order,
/// each once, and they are exactly the refs that the document holds.
pub proof fn law_external_refs_sorted_unique(spec: OpenApiSpec)
    ensures
        forall|i: int, j: int|
            0 <= i < j < spec_external_refs(spec).len() ==> text::lex_le(
                #[trigger] spec_external_refs(spec)[i],
                #[trigger] spec_external_refs(spec)[j],
            ) && spec_external_refs(spec)[i] != spec_external_refs(spec)[j],
        forall|x: Seq<char>| #[trigger] spec_external_refs(spec).contains(x) <==> raw_external_refs(
            spec,
        ).contains(x),
{
    let raw = raw_external_refs(spec);
    let st = text::sort_seq(raw);
    text::lemma_sort_seq(raw);
    lemma_dedup_strict(st);
    lemma_dedup_elements(st);
    assert forall|x: Seq<char>| #[trigger] st.contains(x) <==> raw.contains(x) by {
        broadcast use vstd::seq_lib::group_to_multiset_ensures;

        assert(st.to_multiset().count(x) == raw.to_multiset().count(x));
    }
}

// ---- What the rewrite leaves ----------------------------------------------------------

/// A `$ref` that still points into the file `f`: it starts with `f` and has
/// a fragment.
pub open spec fn points_into(r: Seq<char>, f: Seq<char>) -> bool {
    text::has_prefix(r, f) && r.contains('#')
}

/// No ref of `s` points into the file `f`.
pub open spec fn none_into(s: Seq<Seq<char>>, f: Seq<char>) -> bool {
    forall|k: int| 0 <= k < s.len() ==> !points_into(#[trigger] s[k], f)
}

proof fn lemma_none_into_add(a: Seq<Seq<char>>, b: Seq<Seq<char>>, f: Seq<char>)
    requires
        none_into(a, f),
        none_into(b, f),
    ensures
        none_into(a + b, f),
{
    assert forall|k: int| 0 <= k < (a + b).len() implies !points_into(#[trigger] (a + b)[k], f) by {
        if k < a.len() {
            assert((a + b)[k] == a[k]);
        } else {
            assert((a + b)[k] == b[k - a.len()]);
        }
    }
}

/// A rewritten ref is local (it starts with `#`) or does not point into the
/// file.
proof fn lemma_rewritten_ref(x: Seq<char>, f: Seq<char>)
    ensures
        text::has_prefix(rewritten_ref(x, f), "#"@) || !points_into(rewritten_ref(x, f), f),
{
    if text::has_prefix(x, f) && x.contains('#') {
        let j = text::find_char(x, 0, '#');
        text::lemma_find_char(x, 0, '#');
        let w = choose|w: int| 0 <= w < x.len() && x[w] == '#';
        assert(j <= w);
        let y = x.skip(j);
        assert(y[0] == '#');
        reveal_strlit("#");
        assert(y.subrange(0, 1) =~= "#"@);
    }
}

/// The refs that a single rewritten `$ref` contributes, when it is kept only
/// if it is not local, do not point into the file.
proof fn lemma_kept_ref(x: Seq<char>, f: Seq<char>)
    ensures
        none_into(
            if !text::has_prefix(rewritten_ref(x, f), "#"@) {
                seq![rewritten_ref(x, f)]
            } else {
                seq![]
            },
            f,
        ),
{
    lemma_rewritten_ref(x, f);
}

proof fn lemma_schema_clean(a: SchemaOrRef, b: SchemaOrRef, f: Seq<char>)
    requires
        schema_rewritten(a, b, f),
    ensures
        none_into(schema_refs(b), f),
    decreases a, 0int,
{
    match (a, b) {
        (SchemaOrRef::Ref { ref_path: x }, SchemaOrRef::Ref { ref_path: y }) => {
            lemma_kept_ref(x@, f);
        },
        (SchemaOrRef::Schema(sa), SchemaOrRef::Schema(sb)) => {
            lemma_props_clean(sa.properties, sb.properties, 0, f);
            lemma_item_clean(sa.items, sb.items, f);
            lemma_list_clean(sa.all_of, sb.all_of, f);
            lemma_list_clean(sa.one_of, sb.one_of, f);
            lemma_list_clean(sa.any_of, sb.any_of, f);
            lemma_extra_clean(sa.additional_properties, sb.additional_properties, f);
            let p = props_refs(sb.properties, 0);
            let it = item_refs(sb.items);
            let l1 = list_refs(sb.all_of, 0);
            let l2 = list_refs(sb.one_of, 0);
            let l3 = list_refs(sb.any_of, 0);
            let e = extra_refs(sb.additional_properties);
            lemma_none_into_add(p, it, f);
            lemma_none_into_add(p + it, l1, f);
            lemma_none_into_add(p + it + l1, l2, f);
            lemma_none_into_add(p + it + l1 + l2, l3, f);
            lemma_none_into_add(p + it + l1 + l2 + l3, e, f);
        },
        _ => {},
    }
}

proof fn lemma_props_clean(
    va: Vec<(String, SchemaOrRef)>,
    vb: Vec<(String, SchemaOrRef)>,
    i: int,
    f: Seq<char>,
)
    requires
        va@.len() == vb@.len(),
        forall|k: int|
            0 <= k < va@.len() ==> (#[trigger] va@[k]).0 == vb@[k].0 && schema_rewritten(
                va@[k].1,
                vb@[k].1,
                f,
            ),
    ensures
        none_into(props_refs(vb, i), f),
    decreases va, va@.len() - i,
{
    if 0 <= i < vb@.len() {
        assert(va@[i].0 == vb@[i].0);
        lemma_schema_clean(va@[i].1, vb@[i].1, f);
        lemma_props_clean(va, vb, i + 1, f);
        lemma_none_into_add(schema_refs(vb@[i].1), props_refs(vb, i + 1), f);
    }
}

proof fn lemma_item_clean(oa: Option<Box<SchemaOrRef>>, ob: Option<Box<SchemaOrRef>>, f: Seq<char>)
    requires
        match (oa, ob) {
            (Some(x), Some(y)) => schema_rewritten(*x, *y, f),
            (None, None) => true,
            _ => false,
        },
    ensures
        none_into(item_refs(ob), f),
    decreases oa, 0int,
{
    match (oa, ob) {
        (Some(x), Some(y)) => lemma_schema_clean(*x, *y, f),
        _ => {},
    }
}

proof fn lemma_extra_clean(
    oa: Option<AdditionalProperties>,
    ob: Option<AdditionalProperties>,
    f: Seq<char>,
)
    requires
        match (oa, ob) {
            (Some(AdditionalProperties::Schema(x)), Some(AdditionalProperties::Schema(y))) => schema_rewritten(
                *x,
                *y,
                f,
            ),
            (Some(AdditionalProperties::Bool(x)), Some(AdditionalProperties::Bool(y))) => x == y,
            (None, None) => true,
            _ => false,
        },
    ensures
        none_into(extra_refs(ob), f),
    decreases oa, 0int,
{
    match (oa, ob) {
        (Some(AdditionalProperties::Schema(x)), Some(AdditionalProperties::Schema(y))) => {
            lemma_schema_clean(*x, *y, f)
        },
        _ => {},
    }
}

proof fn lemma_list_clean(oa: Option<Vec<SchemaOrRef>>, ob: Option<Vec<SchemaOrRef>>, f: Seq<char>)
    requires
        list_rewritten(oa, ob, f),
    ensures
        none_into(list_refs(ob, 0), f),
    decreases oa, 0int,
{
    match (oa, ob) {
        (Some(x), Some(y)) => lemma_vec_clean(x, y, 0, f),
        _ => {},
    }
}

proof fn lemma_vec_clean(va: Vec<SchemaOrRef>, vb: Vec<SchemaOrRef>, i: int, f: Seq<char>)
    requires
        va@.len() == vb@.len(),
        forall|k: int| 0 <= k < va@.len() ==> schema_rewritten(#[trigger] va@[k], vb@[k], f),
    ensures
        none_into(vec_refs(vb, i), f),
    decreases va, va@.len() - i,
{
    if 0 <= i < vb@.len() {
        lemma_schema_clean(va@[i], vb@[i], f);
        lemma_vec_clean(va, vb, i + 1, f);
        lemma_none_into_add(schema_refs(vb@[i]), vec_refs(vb, i + 1), f);
    }
}

proof fn lemma_schemas_clean(ma: Seq<(String, SchemaOrRef)>, mb: Seq<(String, SchemaOrRef)>, f: Seq<char>)
    requires
        schemas_rewritten(ma, mb, f),
    ensures
        none_into(schemas_refs(mb), f),
    decreases mb.len(),
{
    if mb.len() > 0 {
        let k = mb.len() - 1;
        assert(ma[k].0 == mb[k].0);
        lemma_schema_clean(ma[k].1, mb[k].1, f);
        assert(schemas_rewritten(ma.drop_last(), mb.drop_last(), f)) by {
            assert forall|i: int| 0 <= i < ma.drop_last().len() implies (#[trigger] ma.drop_last()[i]).0
                == mb.drop_last()[i].0 && schema_rewritten(
                ma.drop_last()[i].1,
                mb.drop_last()[i].1,
                f,
            ) by {
                assert(ma[i].0 == mb[i].0);
            }
        }
        lemma_schemas_clean(ma.drop_last(), mb.drop_last(), f);
        lemma_none_into_add(schemas_refs(mb.drop_last()), schema_refs(mb.last().1), f);
    }
}

proof fn lemma_params_clean(pa: Seq<ParameterOrRef>, pb: Seq<ParameterOrRef>, f: Seq<char>)
    requires
        pa.len() == pb.len(),
        forall|i: int| 0 <= i < pa.len() ==> param_rewritten(#[trigger] pa[i], pb[i], f),
    ensures
        none_into(param_refs(pb), f),
    decreases pb.len(),
{
    if pb.len() > 0 {
        let k = pb.len() - 1;
        assert(param_rewritten(pa[k], pb[k], f));
        assert forall|i: int| 0 <= i < pa.drop_last().len() implies param_rewritten(
            #[trigger] pa.drop_last()[i],
            pb.drop_last()[i],
            f,
        ) by {
            assert(param_rewritten(pa[i], pb[i], f));
        }
        lemma_params_clean(pa.drop_last(), pb.drop_last(), f);
        let last = match pb.last() {
            ParameterOrRef::Ref { ref_path } => if ref_path@.contains('/') && !text::has_prefix(
                ref_path@,
                "#"@,
            ) {
                seq![ref_path@]
            } else {
                seq![]
            },
            _ => seq![],
        };
        match (pa[k], pb[k]) {
            (ParameterOrRef::Ref { ref_path: x }, ParameterOrRef::Ref { ref_path: y }) => {
                lemma_rewritten_ref(x@, f);
            },
            _ => {},
        }
        assert(none_into(last, f));
        lemma_none_into_add(param_refs(pb.drop_last()), last, f);
    }
}

proof fn lemma_responses_clean(
    ra: Seq<(String, ResponseOrRef)>,
    rb: Seq<(String, ResponseOrRef)>,
    f: Seq<char>,
)
    requires
        ra.len() == rb.len(),
        forall|i: int|
            0 <= i < ra.len() ==> (#[trigger] ra[i]).0 == rb[i].0 && response_rewritten(
                ra[i].1,
                rb[i].1,
                f,
            ),
    ensures
        none_into(response_refs(rb), f),
    decreases rb.len(),
{
    if rb.len() > 0 {
        let k = rb.len() - 1;
        assert(ra[k].0 == rb[k].0);
        assert forall|i: int| 0 <= i < ra.drop_last().len() implies (#[trigger] ra.drop_last()[i]).0
            == rb.drop_last()[i].0 && response_rewritten(ra.drop_last()[i].1, rb.drop_last()[i].1, f) by {
            assert(ra[i].0 == rb[i].0);
        }
        lemma_responses_clean(ra.drop_last(), rb.drop_last(), f);
        let last = match rb.last().1 {
            ResponseOrRef::Ref { ref_path } => if !text::has_prefix(ref_path@, "#"@) {
                seq![ref_path@]
            } else {
                seq![]
            },
            _ => seq![],
        };
        match (ra[k].1, rb[k].1) {
            (ResponseOrRef::Ref { ref_path: x }, ResponseOrRef::Ref { ref_path: y }) => {
                lemma_kept_ref(x@, f);
            },
            _ => {},
        }
        assert(none_into(last, f));
        lemma_none_into_add(response_refs(rb.drop_last()), last, f);
    }
}

proof fn lemma_operation_clean(a: Operation, b: Operation, f: Seq<char>)
    requires
        operation_rewritten(a, b, f),
    ensures
        none_into(operation_refs(b), f),
{
    lemma_params_clean(a.parameters@, b.parameters@, f);
    match (a.request_body, b.request_body) {
        (Some(RequestBodyOrRef::Ref { ref_path: x }), Some(RequestBodyOrRef::Ref { ref_path: y })) => {
            lemma_kept_ref(x@, f);
        },
        _ => {},
    }
    assert(none_into(body_refs(b.request_body), f));
    lemma_responses_clean(a.responses@, b.responses@, f);
    lemma_none_into_add(param_refs(b.parameters@), body_refs(b.request_body), f);
    lemma_none_into_add(
        param_refs(b.parameters@) + body_refs(b.request_body),
        response_refs(b.responses@),
        f,
    );
}

proof fn lemma_ops_refs_add(x: Seq<(Seq<char>, Operation)>, y: Seq<(Seq<char>, Operation)>)
    ensures
        ops_refs(x + y) == ops_refs(x) + ops_refs(y),
    decreases y.len(),
{
    if y.len() == 0 {
        assert(x + y =~= x);
        assert(ops_refs(x) + ops_refs(y) =~= ops_refs(x));
    } else {
        assert((x + y).drop_last() =~= x + y.drop_last());
        assert((x + y).last() == y.last());
        lemma_ops_refs_add(x, y.drop_last());
        lemma_assoc(ops_refs(x), ops_refs(y.drop_last()), operation_refs(y.last().1));
    }
}

proof fn lemma_named_op_clean(name: Seq<char>, a: Option<Operation>, b: Option<Operation>, f: Seq<char>)
    requires
        opt_operation_rewritten(a, b, f),
    ensures
        none_into(ops_refs(openapi::named_op(name, b)), f),
{
    match (a, b) {
        (Some(x), Some(y)) => {
            lemma_operation_clean(x, y, f);
            let s = openapi::named_op(name, b);
            assert(s.drop_last() =~= Seq::<(Seq<char>, Operation)>::empty());
            assert(ops_refs(s) =~= ops_refs(s.drop_last()) + operation_refs(y));
            assert(ops_refs(s.drop_last()) + operation_refs(y) =~= operation_refs(y));
        },
        _ => {},
    }
}

proof fn lemma_path_item_clean(a: openapi::PathItem, b: openapi::PathItem, f: Seq<char>)
    requires
        path_item_rewritten(a, b, f),
    ensures
        none_into(ops_refs(openapi::spec_operations(b)), f),
{
    let g = openapi::named_op("get"@, b.get);
    let po = openapi::named_op("post"@, b.post);
    let pu = openapi::named_op("put"@, b.put);
    let pa = openapi::named_op("patch"@, b.patch);
    let d = openapi::named_op("delete"@, b.delete);
    lemma_named_op_clean("get"@, a.get, b.get, f);
    lemma_named_op_clean("post"@, a.post, b.post, f);
    lemma_named_op_clean("put"@, a.put, b.put, f);
    lemma_named_op_clean("patch"@, a.patch, b.patch, f);
    lemma_named_op_clean("delete"@, a.delete, b.delete, f);
    lemma_ops_refs_add(g, po);
    lemma_none_into_add(ops_refs(g), ops_refs(po), f);
    lemma_ops_refs_add(g + po, pu);
    lemma_none_into_add(ops_refs(g + po), ops_refs(pu), f);
    lemma_ops_refs_add(g + po + pu, pa);
    lemma_none_into_add(ops_refs(g + po + pu), ops_refs(pa), f);
    lemma_ops_refs_add(g + po + pu + pa, d);
    lemma_none_into_add(ops_refs(g + po + pu + pa), ops_refs(d), f);
}

proof fn lemma_paths_clean(pa: Seq<(String, openapi::PathItem)>, pb: Seq<(String, openapi::PathItem)>, f: Seq<char>)
    requires
        pa.len() == pb.len(),
        forall|i: int|
            0 <= i < pa.len() ==> (#[trigger] pa[i]).0 == pb[i].0 && path_item_rewritten(pa[i].1, pb[i].1, f),
    ensures
        none_into(paths_refs(pb), f),
    decreases pb.len(),
{
    if pb.len() > 0 {
        let k = pb.len() - 1;
        assert(pa[k].0 == pb[k].0);
        assert forall|i: int| 0 <= i < pa.drop_last().len() implies (#[trigger] pa.drop_last()[i]).0
            == pb.drop_last()[i].0 && path_item_rewritten(pa.drop_last()[i].1, pb.drop_last()[i].1, f) by {
            assert(pa[i].0 == pb[i].0);
        }
        lemma_paths_clean(pa.drop_last(), pb.drop_last(), f);
        lemma_path_item_clean(pa[k].1, pb[k].1, f);
        lemma_none_into_add(paths_refs(pb.drop_last()), ops_refs(openapi::spec_operations(pb.last().1)), f);
    }
}

/// Rewriting the refs into an external file leaves none that points into
/// it: once `rewrite_refs` has run for `f`, no external ref that
/// `collect_external_refs` finds starts with `f` and has a fragment.
pub proof fn law_rewrite_leaves_no_ref_into_file(a: OpenApiSpec, b: OpenApiSpec, f: Seq<char>)
    requires
        spec_rewritten(a, b, f),
    ensures
        forall|k: int|
            0 <= k < spec_external_refs(b).len() ==> !points_into(#[trigger] spec_external_refs(b)[k], f),
{
    match (a.components, b.components) {
        (Some(ca), Some(cb)) => lemma_schemas_clean(ca.schemas@, cb.schemas@, f),
        _ => {},
    }
    assert(none_into(component_refs(b.components), f));
    assert forall|i: int|
        0 <= i < a.paths@.len() implies (#[trigger] a.paths@[i]).0 == b.paths@[i].0 && path_item_rewritten(
        a.paths@[i].1,
        b.paths@[i].1,
        f,
    ) by {}
    lemma_paths_clean(a.paths@, b.paths@, f);
    lemma_none_into_add(component_refs(b.components), paths_refs(b.paths@), f);
    let raw = raw_external_refs(b);
    law_external_refs_sorted_unique(b);
    assert forall|k: int|
        0 <= k < spec_external_refs(b).len() implies !points_into(#[trigger] spec_external_refs(b)[k], f) by {
        let x = spec_external_refs(b)[k];
        assert(spec_external_refs(b).contains(x));
        assert(raw.contains(x));
        let m = choose|m: int| 0 <= m < raw.len() && raw[m] == x;
        assert(!points_into(raw[m], f));
    }
}

// ---- Rewriting one schema, seen through its external refs -------------------------------

/// Keeps the refs that do not point into the file `f`.
pub open spec fn outside(f: Seq<char>) -> spec_fn(Seq<char>) -> bool {
    |r: Seq<char>| !points_into(r, f)
}

/// The external refs that a ref contributes (itself, unless it is local).
pub open spec fn ref_refs(x: Seq<char>) -> Seq<Seq<char>> {
    if !text::has_prefix(x, "#"@) {
        seq![x]
    } else {
        seq![]
    }
}

proof fn lemma_ref_filter(x: Seq<char>, f: Seq<char>)
    ensures
        ref_refs(rewritten_ref(x, f)) == ref_refs(x).filter(outside(f)),
{
    reveal_with_fuel(Seq::filter, 2);
    lemma_rewritten_ref(x, f);
    let e = Seq::<Seq<char>>::empty();
    assert(e.filter(outside(f)) =~= e);
    if !text::has_prefix(x, "#"@) {
        assert(seq![x].drop_last() =~= e);
    }
    if points_into(x, f) {
        let j = text::find_char(x, 0, '#');
        text::lemma_find_char(x, 0, '#');
        let w = choose|w: int| 0 <= w < x.len() && x[w] == '#';
        assert(j <= w);
        let y = x.skip(j);
        assert(y[0] == '#');
        reveal_strlit("#");
        assert(y.subrange(0, 1) =~= "#"@);
        assert(text::has_prefix(rewritten_ref(x, f), "#"@));
    } else {
        assert(rewritten_ref(x, f) == x);
    }
}

proof fn lemma_schema_filter(a: SchemaOrRef, b: SchemaOrRef, f: Seq<char>)
    requires
        schema_rewritten(a, b, f),
    ensures
        schema_refs(b) == schema_refs(a).filter(outside(f)),
    decreases a, 0int,
{
    broadcast use Seq::filter_distributes_over_add;

    match (a, b) {
        (SchemaOrRef::Ref { ref_path: x }, SchemaOrRef::Ref { ref_path: y }) => {
            lemma_ref_filter(x@, f);
            assert(schema_refs(a) == ref_refs(x@));
            assert(schema_refs(b) == ref_refs(y@));
        },
        (SchemaOrRef::Schema(sa), SchemaOrRef::Schema(sb)) => {
            lemma_props_filter(sa.properties, sb.properties, 0, f);
            lemma_item_filter(sa.items, sb.items, f);
            lemma_list_filter(sa.all_of, sb.all_of, f);
            lemma_list_filter(sa.one_of, sb.one_of, f);
            lemma_list_filter(sa.any_of, sb.any_of, f);
            lemma_extra_filter(sa.additional_properties, sb.additional_properties, f);
            let p = props_refs(sa.properties, 0);
            let it = item_refs(sa.items);
            let l1 = list_refs(sa.all_of, 0);
            let l2 = list_refs(sa.one_of, 0);
            let l3 = list_refs(sa.any_of, 0);
            let e = extra_refs(sa.additional_properties);
            let o = outside(f);
            assert((p + it + l1 + l2 + l3 + e).filter(o) == (p + it + l1 + l2 + l3).filter(o) + e.filter(o));
            assert((p + it + l1 + l2 + l3).filter(o) == (p + it + l1 + l2).filter(o) + l3.filter(o));
            assert((p + it + l1 + l2).filter(o) == (p + it + l1).filter(o) + l2.filter(o));
            assert((p + it + l1).filter(o) == (p + it).filter(o) + l1.filter(o));
            assert((p + it).filter(o) == p.filter(o) + it.filter(o));
        },
        _ => {},
    }
}

proof fn lemma_props_filter(
    va: Vec<(String, SchemaOrRef)>,
    vb: Vec<(String, SchemaOrRef)>,
    i: int,
    f: Seq<char>,
)
    requires
        va@.len() == vb@.len(),
        forall|k: int|
            0 <= k < va@.len() ==> (#[trigger] va@[k]).0 == vb@[k].0 && schema_rewritten(
                va@[k].1,
                vb@[k].1,
                f,
            ),
    ensures
        props_refs(vb, i) == props_refs(va, i).filter(outside(f)),
    decreases va, va@.len() - i,
{
    broadcast use Seq::filter_distributes_over_add;

    if 0 <= i < vb@.len() {
        assert(va@[i].0 == vb@[i].0);
        lemma_schema_filter(va@[i].1, vb@[i].1, f);
        lemma_props_filter(va, vb, i + 1, f);
        assert((schema_refs(va@[i].1) + props_refs(va, i + 1)).filter(outside(f)) == schema_refs(
            va@[i].1,
        ).filter(outside(f)) + props_refs(va, i + 1).filter(outside(f)));
    } else {
        reveal_with_fuel(Seq::filter, 1);
        assert(Seq::<Seq<char>>::empty().filter(outside(f)) =~= Seq::<Seq<char>>::empty());
    }
}

proof fn lemma_item_filter(oa: Option<Box<SchemaOrRef>>, ob: Option<Box<SchemaOrRef>>, f: Seq<char>)
    requires
        match (oa, ob) {
            (Some(x), Some(y)) => schema_rewritten(*x, *y, f),
            (None, None) => true,
            _ => false,
        },
    ensures
        item_refs(ob) == item_refs(oa).filter(outside(f)),
    decreases oa, 0int,
{
    match (oa, ob) {
        (Some(x), Some(y)) => lemma_schema_filter(*x, *y, f),
        _ => {
            reveal_with_fuel(Seq::filter, 1);
            assert(Seq::<Seq<char>>::empty().filter(outside(f)) =~= Seq::<Seq<char>>::empty());
        },
    }
}

proof fn lemma_extra_filter(
    oa: Option<AdditionalProperties>,
    ob: Option<AdditionalProperties>,
    f: Seq<char>,
)
    requires
        match (oa, ob) {
            (Some(AdditionalProperties::Schema(x)), Some(AdditionalProperties::Schema(y))) => schema_rewritten(
                *x,
                *y,
                f,
            ),
            (Some(AdditionalProperties::Bool(x)), Some(AdditionalProperties::Bool(y))) => x == y,
            (None, None) => true,
            _ => false,
        },
    ensures
        extra_refs(ob) == extra_refs(oa).filter(outside(f)),
    decreases oa, 0int,
{
    match (oa, ob) {
        (Some(AdditionalProperties::Schema(x)), Some(AdditionalProperties::Schema(y))) => {
            lemma_schema_filter(*x, *y, f)
        },
        _ => {
            reveal_with_fuel(Seq::filter, 1);
            assert(Seq::<Seq<char>>::empty().filter(outside(f)) =~= Seq::<Seq<char>>::empty());
        },
    }
}

proof fn lemma_list_filter(oa: Option<Vec<SchemaOrRef>>, ob: Option<Vec<SchemaOrRef>>, f: Seq<char>)
    requires
        list_rewritten(oa, ob, f),
    ensures
        list_refs(ob, 0) == list_refs(oa, 0).filter(outside(f)),
    decreases oa, 0int,
{
    match (oa, ob) {
        (Some(x), Some(y)) => lemma_vec_filter(x, y, 0, f),
        _ => {
            reveal_with_fuel(Seq::filter, 1);
            assert(Seq::<Seq<char>>::empty().filter(outside(f)) =~= Seq::<Seq<char>>::empty());
        },
    }
}

proof fn lemma_vec_filter(va: Vec<SchemaOrRef>, vb: Vec<SchemaOrRef>, i: int, f: Seq<char>)
    requires
        va@.len() == vb@.len(),
        forall|k: int| 0 <= k < va@.len() ==> schema_rewritten(#[trigger] va@[k], vb@[k], f),
    ensures
        vec_refs(vb, i) == vec_refs(va, i).filter(outside(f)),
    decreases va, va@.len() - i,
{
    broadcast use Seq::filter_distributes_over_add;

    if 0 <= i < vb@.len() {
        lemma_schema_filter(va@[i], vb@[i], f);
        lemma_vec_filter(va, vb, i + 1, f);
        assert((schema_refs(va@[i]) + vec_refs(va, i + 1)).filter(outside(f)) == schema_refs(
            va@[i],
        ).filter(outside(f)) + vec_refs(va, i + 1).filter(outside(f)));
    } else {
        reveal_with_fuel(Seq::filter, 1);
        assert(Seq::<Seq<char>>::empty().filter(outside(f)) =~= Seq::<Seq<char>>::empty());
    }
}

/// Rewriting one schema's refs for a file takes exactly the refs into that
/// file out of its external refs: after `rewrite_refs_in_schema_or_ref`,
/// `collect_refs_from_schema_or_ref` finds the external refs it found before
/// except those that start with the file and have a fragment, in the same
/// order.
pub proof fn law_schema_rewrite_filters_refs(a: SchemaOrRef, b: SchemaOrRef, f: Seq<char>)
    requires
        schema_rewritten(a, b, f),
    ensures
        schema_refs(b) == schema_refs(a).filter(|r: Seq<char>| !points_into(r, f)),
{
    lemma_schema_filter(a, b, f);
    assert(outside(f) == (|r: Seq<char>| !points_into(r, f)));
}

// ---- Refs at any depth ------------------------------------------------------------

/// `c` stands directly in `sch`: it is the schema of one of its properties,
/// its items, a member of its `allOf`, `oneOf` or `anyOf`, or the schema of
/// its `additionalProperties`.
pub open spec fn directly_in(c: SchemaOrRef, sch: Schema) -> bool {
    ||| exists|i: int| 0 <= i < sch.properties@.len() && (#[trigger] sch.properties@[i]).1 == c
    ||| sch.items == Some(Box::new(c))
    ||| (sch.all_of matches Some(v) && v@.contains(c))
    ||| (sch.one_of matches Some(v) && v@.contains(c))
    ||| (sch.any_of matches Some(v) && v@.contains(c))
    ||| sch.additional_properties == Some(AdditionalProperties::Schema(Box::new(c)))
}

proof fn lemma_add_contains(a: Seq<Seq<char>>, b: Seq<Seq<char>>, r: Seq<char>)
    ensures
        (a.contains(r) || b.contains(r)) ==> (a + b).contains(r),
{
    if a.contains(r) {
        let k = choose|k: int| 0 <= k < a.len() && a[k] == r;
        assert((a + b)[k] == r);
    } else if b.contains(r) {
        let k = choose|k: int| 0 <= k < b.len() && b[k] == r;
        assert((a + b)[a.len() + k] == r);
    }
}

proof fn lemma_vec_refs_contains(v: Vec<SchemaOrRef>, i: int, j: int, r: Seq<char>)
    requires
        0 <= i <= j < v@.len(),
        schema_refs(v@[j]).contains(r),
    ensures
        vec_refs(v, i).contains(r),
    decreases j - i,
{
    if i < j {
        lemma_vec_refs_contains(v, i + 1, j, r);
    }
    lemma_add_contains(schema_refs(v@[i]), vec_refs(v, i + 1), r);
}

proof fn lemma_props_refs_contains(v: Vec<(String, SchemaOrRef)>, i: int, j: int, r: Seq<char>)
    requires
        0 <= i <= j < v@.len(),
        schema_refs(v@[j].1).contains(r),
    ensures
        props_refs(v, i).contains(r),
    decreases j - i,
{
    if i < j {
        lemma_props_refs_contains(v, i + 1, j, r);
    }
    lemma_add_contains(schema_refs(v@[i].1), props_refs(v, i + 1), r);
}

proof fn lemma_list_refs_contains(o: Option<Vec<SchemaOrRef>>, c: SchemaOrRef, r: Seq<char>)
    requires
        o matches Some(v) && v@.contains(c),
        schema_refs(c).contains(r),
    ensures
        list_refs(o, 0).contains(r),
{
    let v = o->Some_0;
    let j = choose|j: int| 0 <= j < v@.len() && v@[j] == c;
    lemma_vec_refs_contains(v, 0, j, r);
}

/// A `$ref` that does not start with `#` is collected as an external ref;
/// one that starts with `#` (a ref within the document) is not.
pub proof fn law_external_ref_collected(p: String)
    ensures
        !text::has_prefix(p@, "#"@) ==> schema_refs(SchemaOrRef::Ref { ref_path: p }).contains(p@),
        text::has_prefix(p@, "#"@) ==> schema_refs(SchemaOrRef::Ref { ref_path: p }).len() == 0,
{
    if !text::has_prefix(p@, "#"@) {
        assert(schema_refs(SchemaOrRef::Ref { ref_path: p })[0] == p@);
    }
}

/// Every ref collected from a schema that stands directly in another (as a
/// property, the items, an `allOf`, `oneOf` or `anyOf` member, or
/// `additionalProperties`) is collected from that other schema too; with
/// `law_external_ref_collected`, every external `$ref` at any depth of a
/// schema is among the refs collected from it.
pub proof fn law_nested_refs_collected(sch: Schema, c: SchemaOrRef, r: Seq<char>)
    requires
        directly_in(c, sch),
        schema_refs(c).contains(r),
    ensures
        schema_refs(SchemaOrRef::Schema(Box::new(sch))).contains(r),
{
    let a = props_refs(sch.properties, 0);
    let b = item_refs(sch.items);
    let l1 = list_refs(sch.all_of, 0);
    let l2 = list_refs(sch.one_of, 0);
    let l3 = list_refs(sch.any_of, 0);
    let f = extra_refs(sch.additional_properties);
    if exists|i: int| 0 <= i < sch.properties@.len() && (#[trigger] sch.properties@[i]).1 == c {
        let i = choose|i: int| 0 <= i < sch.properties@.len() && (#[trigger] sch.properties@[i]).1 == c;
        lemma_props_refs_contains(sch.properties, 0, i, r);
    } else if sch.items == Some(Box::new(c)) {
    } else if sch.all_of matches Some(v) && v@.contains(c) {
        lemma_list_refs_contains(sch.all_of, c, r);
    } else if sch.one_of matches Some(v) && v@.contains(c) {
        lemma_list_refs_contains(sch.one_of, c, r);
    } else if sch.any_of matches Some(v) && v@.contains(c) {
        lemma_list_refs_contains(sch.any_of, c, r);
    }
    lemma_add_contains(a, b, r);
    lemma_add_contains(a + b, l1, r);
    lemma_add_contains(a + b + l1, l2, r);
    lemma_add_contains(a + b + l1 + l2, l3, r);
    lemma_add_contains(a + b + l1 + l2 + l3, f, r);
}

proof fn lemma_schemas_refs_contains(m: Seq<(String, SchemaOrRef)>, j: int, r: Seq<char>)
    requires
        0 <= j < m.len(),
        schema_refs(m[j].1).contains(r),
    ensures
        schemas_refs(m).contains(r),
    decreases m.len(),
{
    if j < m.len() - 1 {
        lemma_schemas_refs_contains(m.drop_last(), j, r);
    }
    lemma_add_contains(schemas_refs(m.drop_last()), schema_refs(m.last().1), r);
}

/// Every ref collected from a component schema is among the external refs of
/// the document (the files that resolution goes on to load).
pub proof fn law_component_refs_are_external_refs(spec: OpenApiSpec, j: int, r: Seq<char>)
    requires
        spec.components matches Some(c) && 0 <= j < c.schemas@.len() && schema_refs(
            c.schemas@[j].1,
        ).contains(r),
    ensures
        spec_external_refs(spec).contains(r),
{
    let c = spec.components->Some_0;
    lemma_schemas_refs_contains(c.schemas@, j, r);
    lemma_add_contains(component_refs(spec.components), paths_refs(spec.paths@), r);
    law_external_refs_sorted_unique(spec);
}

} // verus!
