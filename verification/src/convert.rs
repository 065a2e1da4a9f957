//! Conversion of a parsed OpenAPI document into the intermediate
//! representation.
//!
//! Schemas are converted lazily: a `$ref` becomes a named reference and is
//! not expanded, except for the members of an `allOf`, whose properties are
//! merged into one object with the `required` lists of every level applied
//! (a member that offers a choice, `oneOf` or `anyOf`, is intersected with
//! that object instead, a `$ref` one as the named reference). Because an
//! `allOf` member is looked up among the component schemas, a schema can lead
//! back into itself through `allOf`; a component schema that is already being
//! expanded is skipped there, so conversion always ends: each expansion leaves
//! one component schema fewer to expand.
use vstd::prelude::*;

use crate::ir::{
    ApiSpec, ApiSpecV, ArrayStyle, ContentType, Endpoint, EndpointParam, EndpointParamV, EndpointV, HttpMethod,
    ParamLocation, ResponseType, TypeDef, TypeDefV, Constraints, ConstraintsV, EnumValue, EnumValueV, PrimitiveType, Property, PropertyV, TypeRepr, TypeReprV,
};
use crate::ir;
use crate::openapi::{
    AdditionalProperties, MediaType, OpenApiSpec, Operation, Parameter, ParameterOrRef, PathItem, RequestBody,
    RequestBodyOrRef, Response, ResponseOrRef, Schema, SchemaOrRef, SchemaType,
};
use crate::openapi;
use crate::text;
use crate::value::{Number, Value};

verus! {

/// The index of the last `c` in `s` (or -1).
pub open spec fn last_index_of(s: Seq<char>, c: char) -> int
    decreases s.len(),
{
    if s.len() == 0 {
        -1
    } else if s.last() == c {
        s.len() - 1
    } else {
        last_index_of(s.drop_last(), c)
    }
}

/// The name a `$ref` path refers to: its part after the last `/` (the
/// whole path when it has none).
pub open spec fn ref_name(p: Seq<char>) -> Seq<char> {
    p.skip(last_index_of(p, '/') + 1)
}

/// The first entry of a type list that is not `"null"`.
pub open spec fn first_non_null(v: Seq<String>) -> Option<Seq<char>>
    decreases v.len(),
{
    if v.len() == 0 {
        None
    } else if v[0]@ == "null"@ {
        first_non_null(v.drop_first())
    } else {
        Some(v[0]@)
    }
}

/// The type name that decides the representation: the `type` string, or for
/// an OpenAPI 3.1 type list its first entry that is not `"null"`.
pub open spec fn effective_type(t: Option<SchemaType>) -> Option<Seq<char>> {
    match t {
        Some(SchemaType::Single(s)) => Some(s@),
        Some(SchemaType::Array(v)) => first_non_null(v@),
        None => None,
    }
}

/// The schema admits null: `nullable: true`, or the 3.1 type `"null"` (alone
/// or in a type list).
pub open spec fn is_nullable(s: Schema) -> bool {
    s.nullable || lists_null(s.schema_type)
}

/// The 3.1 type `"null"`, or a 3.1 type list that holds it.
pub open spec fn lists_null(t: Option<SchemaType>) -> bool {
    match t {
        Some(SchemaType::Array(v)) => holds_null(v),
        Some(SchemaType::Single(s)) => s@ == "null"@,
        None => false,
    }
}

/// Some entry of `v` is `"null"`.
pub open spec fn holds_null(v: Vec<String>) -> bool {
    exists|i: int| 0 <= i < v@.len() && (#[trigger] v@[i])@ == "null"@
}

/// `T | null` when `nullable`, else `T`.
pub open spec fn nullable_v(r: TypeReprV, nullable: bool) -> TypeReprV {
    if nullable {
        TypeReprV::Nullable(Box::new(r))
    } else {
        r
    }
}

/// The enum values a list of JSON values gives: strings, and numbers that
/// fit in an `i64`; other values are dropped.
pub open spec fn enum_values(v: Seq<Value>) -> Seq<EnumValueV>
    decreases v.len(),
{
    if v.len() == 0 {
        seq![]
    } else {
        enum_values(v.drop_last()) + match v.last() {
            Value::String(s) => seq![EnumValueV::String(s@)],
            Value::Number(Number::PosInt(n)) => if n <= i64::MAX {
                seq![EnumValueV::Integer(n as i64)]
            } else {
                seq![]
            },
            Value::Number(Number::NegInt(n)) => seq![EnumValueV::Integer(n)],
            _ => seq![],
        }
    }
}

/// The index of the entry under `k` (or `m.len()`).
pub open spec fn key_pos<V>(m: Seq<(Seq<char>, V)>, k: Seq<char>) -> int
    decreases m.len(),
{
    if m.len() == 0 {
        0
    } else if m[0].0 == k {
        0
    } else {
        1 + key_pos(m.drop_first(), k)
    }
}

/// `IndexMap::insert`: a new key goes at the end, an existing key keeps its
/// place and gets the new value.
pub open spec fn map_insert<V>(m: Seq<(Seq<char>, V)>, k: Seq<char>, v: V) -> Seq<(Seq<char>, V)> {
    let i = key_pos(m, k);
    if 0 <= i < m.len() {
        m.update(i, (m[i].0, v))
    } else {
        m.push((k, v))
    }
}

/// The validation constraints of a schema.
pub open spec fn constraints_of(s: Schema) -> ConstraintsV {
    ConstraintsV {
        min_length: s.min_length,
        max_length: s.max_length,
        pattern: ir::opt_chars(s.pattern),
        minimum: ir::opt_chars(s.minimum),
        maximum: ir::opt_chars(s.maximum),
        exclusive_minimum: ir::opt_chars(s.exclusive_minimum),
        exclusive_maximum: ir::opt_chars(s.exclusive_maximum),
        multiple_of: ir::opt_chars(s.multiple_of),
        min_items: s.min_items,
        max_items: s.max_items,
    }
}

/// A property as conversion creates it: an inline schema `src` gives it its
/// read-only flag, description, default and constraints; a `$ref` gives none.
pub open spec fn new_property(name: Seq<char>, required: bool, repr: TypeReprV, src: SchemaOrRef) -> PropertyV {
    match src {
        SchemaOrRef::Schema(b) => PropertyV {
            name,
            required,
            read_only: b.read_only,
            description: ir::opt_chars(b.description),
            default_value: ir::opt_value(b.default),
            repr,
            constraints: constraints_of(*b),
        },
        SchemaOrRef::Ref { .. } => PropertyV {
            name,
            required,
            read_only: false,
            description: None,
            default_value: None,
            repr,
            constraints: ir::no_constraints(),
        },
    }
}

/// Marks required each property whose name `required` lists.
pub open spec fn apply_required(m: Seq<(Seq<char>, PropertyV)>, required: Seq<Seq<char>>) -> Seq<
    (Seq<char>, PropertyV),
> {
    m.map_values(
        |e: (Seq<char>, PropertyV)|
            if required.contains(e.1.name) {
                (e.0, PropertyV { required: true, ..e.1 })
            } else {
                e
            },
    )
}

/// The component schema that a `$ref` names, when it is an inline schema.
pub open spec fn resolve_named(p: Seq<char>, spec: OpenApiSpec) -> Option<Schema> {
    match spec.components {
        Some(c) => match openapi::lookup(c.schemas@, ref_name(p)) {
            Some(SchemaOrRef::Schema(s)) => Some(*s),
            _ => None,
        },
        None => None,
    }
}

/// The names of the component schemas.
pub open spec fn schema_names(spec: OpenApiSpec) -> Set<Seq<char>> {
    match spec.components {
        Some(c) => c.schemas@.map_values(|e: (String, SchemaOrRef)| e.0@).to_set(),
        None => Set::empty(),
    }
}

/// How many component schemas are not being expanded into an `allOf` (`stk`
/// holds those that are): this bounds how deep expansion goes.
pub open spec fn unexpanded(spec: OpenApiSpec, stk: Set<Seq<char>>) -> nat {
    (schema_names(spec) - stk).len()
}

pub proof fn lemma_names_finite(spec: OpenApiSpec)
    ensures
        schema_names(spec).finite(),
{
    match spec.components {
        Some(c) => vstd::seq_lib::seq_to_set_is_finite(
            c.schemas@.map_values(|e: (String, SchemaOrRef)| e.0@),
        ),
        None => {},
    }
}

/// A `$ref` that resolves names one of the component schemas.
pub proof fn lemma_resolved_named(p: Seq<char>, spec: OpenApiSpec)
    requires
        resolve_named(p, spec) is Some,
    ensures
        schema_names(spec).contains(ref_name(p)),
{
    let c = spec.components->Some_0;
    openapi::lemma_lookup_index(c.schemas@, ref_name(p));
    let i = openapi::entry_index(c.schemas@, ref_name(p));
    let keys = c.schemas@.map_values(|e: (String, SchemaOrRef)| e.0@);
    assert(keys[i] == ref_name(p));
}

/// Expanding one more component schema leaves fewer to expand.
pub proof fn lemma_expand_fewer(spec: OpenApiSpec, stk: Set<Seq<char>>, n: Seq<char>)
    requires
        schema_names(spec).contains(n),
        !stk.contains(n),
    ensures
        unexpanded(spec, stk.insert(n)) < unexpanded(spec, stk),
{
    lemma_names_finite(spec);
    let u = schema_names(spec);
    assert((u - stk.insert(n)) =~= (u - stk).remove(n));
    assert((u - stk).finite());
    assert((u - stk).contains(n));
}

/// The representation of a schema or reference, where the component schemas
/// `stk` are being expanded into an `allOf`: a `$ref` is a named reference.
pub open spec fn conv_sor(s: SchemaOrRef, spec: OpenApiSpec, stk: Set<Seq<char>>) -> TypeReprV
    decreases unexpanded(spec, stk), s, 0int,
{
    match s {
        SchemaOrRef::Ref { ref_path } => TypeReprV::Ref { name: ref_name(ref_path@) },
        SchemaOrRef::Schema(b) => conv_schema(*b, spec, stk),
    }
}

/// The representation of a schema: `allOf` merges into one object
/// (intersected with the members that offer a choice); `oneOf` and `anyOf`
/// give a union; a non-empty `enum` gives an enum; otherwise the type decides
/// (see `conv_by_type`). All but the `allOf` case are made nullable when the
/// schema admits null.
pub open spec fn conv_schema(sch: Schema, spec: OpenApiSpec, stk: Set<Seq<char>>) -> TypeReprV
    decreases unexpanded(spec, stk), sch, 1int,
{
    let n = is_nullable(sch);
    match sch.all_of {
        Some(list) => conv_all_of(list, 0, spec, stk, seq![], ir::strings_view(sch.required@), seq![]),
        None => match sch.one_of {
            Some(list) => nullable_v(
                TypeReprV::Union {
                    variants: conv_list(list, 0, spec, stk),
                    discriminator: match sch.discriminator {
                        Some(d) => Some(d.property_name@),
                        None => None,
                    },
                },
                n,
            ),
            None => match sch.any_of {
                Some(list) => nullable_v(
                    TypeReprV::Union { variants: conv_list(list, 0, spec, stk), discriminator: None },
                    n,
                ),
                None => if sch.enum_values@.len() > 0 {
                    nullable_v(TypeReprV::Enum { values: enum_values(sch.enum_values@) }, n)
                } else {
                    nullable_v(conv_by_type(sch, spec, stk), n)
                },
            },
        },
    }
}

/// The representation that the type of a schema decides: a primitive for
/// the four primitive types; for an array, a tuple of its `prefixItems` when
/// it has them, else an array of its items (`Any` items when none are given);
/// for an object (or a schema without a type) without properties, a record
/// of its `additionalProperties` schema (of `Any` when they are `true`), and
/// with properties an object of them; anything else is `Any`.
pub open spec fn conv_by_type(sch: Schema, spec: OpenApiSpec, stk: Set<Seq<char>>) -> TypeReprV
    decreases unexpanded(spec, stk), sch, 0int,
{
    let t = effective_type(sch.schema_type);
    if t == Some("string"@) {
        TypeReprV::Primitive(PrimitiveType::String)
    } else if t == Some("number"@) {
        TypeReprV::Primitive(PrimitiveType::Number)
    } else if t == Some("integer"@) {
        TypeReprV::Primitive(PrimitiveType::Integer)
    } else if t == Some("boolean"@) {
        TypeReprV::Primitive(PrimitiveType::Boolean)
    } else if t == Some("array"@) {
        match sch.prefix_items {
            Some(list) => TypeReprV::Tuple { items: conv_list(list, 0, spec, stk) },
            None => match sch.items {
                Some(it) => TypeReprV::Array { items: Box::new(conv_sor(*it, spec, stk)) },
                None => TypeReprV::Array { items: Box::new(TypeReprV::Any) },
            },
        }
    } else if (t == Some("object"@) || t is None) && sch.properties@.len() == 0
        && sch.additional_properties is Some {
        match sch.additional_properties {
            Some(AdditionalProperties::Schema(b)) => TypeReprV::Record {
                value: Box::new(conv_sor(*b, spec, stk)),
            },
            Some(AdditionalProperties::Bool(true)) => TypeReprV::Record {
                value: Box::new(TypeReprV::Any),
            },
            _ => TypeReprV::Any,
        }
    } else if (t == Some("object"@) || t is None) && sch.properties@.len() > 0 {
        TypeReprV::Object {
            properties: conv_object(
                sch.properties,
                0,
                ir::strings_view(sch.required@),
                spec,
                stk,
                seq![],
            ),
        }
    } else {
        TypeReprV::Any
    }
}

/// The representations of the schemas of `v` from index `i` on.
pub open spec fn conv_list(v: Vec<SchemaOrRef>, i: int, spec: OpenApiSpec, stk: Set<Seq<char>>) -> Seq<
    TypeReprV,
>
    decreases unexpanded(spec, stk), v, v@.len() - i,
{
    if i < 0 || i >= v@.len() {
        seq![]
    } else {
        seq![conv_sor(v@[i], spec, stk)] + conv_list(v, i + 1, spec, stk)
    }
}

/// The properties of an object schema from index `i` on, inserted into
/// `acc`; a property is required when `required` names it.
pub open spec fn conv_object(
    props: Vec<(String, SchemaOrRef)>,
    i: int,
    required: Seq<Seq<char>>,
    spec: OpenApiSpec,
    stk: Set<Seq<char>>,
    acc: Seq<(Seq<char>, PropertyV)>,
) -> Seq<(Seq<char>, PropertyV)>
    decreases unexpanded(spec, stk), props, props@.len() - i,
{
    if i < 0 || i >= props@.len() {
        acc
    } else {
        let k = props@[i].0@;
        let r = conv_sor(props@[i].1, spec, stk);
        conv_object(
            props,
            i + 1,
            required,
            spec,
            stk,
            map_insert(acc, k, new_property(k, required.contains(k), r, props@[i].1)),
        )
    }
}

/// The properties of `props` from index `i` on, inserted into `acc` as not
/// required.
pub open spec fn merge_props(
    props: Vec<(String, SchemaOrRef)>,
    i: int,
    spec: OpenApiSpec,
    stk: Set<Seq<char>>,
    acc: Seq<(Seq<char>, PropertyV)>,
) -> Seq<(Seq<char>, PropertyV)>
    decreases unexpanded(spec, stk), props, props@.len() - i,
{
    if i < 0 || i >= props@.len() {
        acc
    } else {
        let k = props@[i].0@;
        let r = conv_sor(props@[i].1, spec, stk);
        merge_props(props, i + 1, spec, stk, map_insert(acc, k, new_property(k, false, r, props@[i].1)))
    }
}

/// A schema that offers a choice (`oneOf` or `anyOf`), which an `allOf`
/// cannot flatten into its object.
pub open spec fn is_choice(s: Schema) -> bool {
    s.one_of is Some || s.any_of is Some
}

/// The result of an `allOf`: the merged object, intersected with the
/// members that could not be merged when there are any.
pub open spec fn all_of_result(obj: TypeReprV, rest: Seq<TypeReprV>) -> TypeReprV {
    if rest.len() == 0 {
        obj
    } else {
        TypeReprV::Intersection { members: seq![obj] + rest }
    }
}

/// The members of an `allOf` from index `i` on. A member that offers a
/// choice is kept apart, in `rest`: a `$ref` one as the named reference, an
/// inline one converted. The other members are merged: the properties of
/// each (a `$ref` member is looked up among the component schemas) are
/// added to `acc` and its `required` list to `req`; a `$ref` member that is
/// not found, or whose schema is already being expanded (`stk`), is
/// skipped. At the end each merged property that some level requires is
/// marked required, and the object is intersected with `rest` when that is
/// not empty.
pub open spec fn conv_all_of(
    list: Vec<SchemaOrRef>,
    i: int,
    spec: OpenApiSpec,
    stk: Set<Seq<char>>,
    acc: Seq<(Seq<char>, PropertyV)>,
    req: Seq<Seq<char>>,
    rest: Seq<TypeReprV>,
) -> TypeReprV
    decreases unexpanded(spec, stk), list, list@.len() - i,
{
    if i < 0 || i >= list@.len() {
        all_of_result(TypeReprV::Object { properties: apply_required(acc, req) }, rest)
    } else {
        match list@[i] {
            SchemaOrRef::Ref { ref_path } => {
                let n = ref_name(ref_path@);
                match resolve_named(ref_path@, spec) {
                    Some(s) => if is_choice(s) {
                        conv_all_of(list, i + 1, spec, stk, acc, req, rest.push(TypeReprV::Ref { name: n }))
                    } else if !stk.contains(n) {
                        proof {
                            lemma_resolved_named(ref_path@, spec);
                            lemma_expand_fewer(spec, stk, n);
                        }
                        conv_all_of(
                            list,
                            i + 1,
                            spec,
                            stk,
                            merge_props(s.properties, 0, spec, stk.insert(n), acc),
                            req + ir::strings_view(s.required@),
                            rest,
                        )
                    } else {
                        conv_all_of(list, i + 1, spec, stk, acc, req, rest)
                    },
                    None => conv_all_of(list, i + 1, spec, stk, acc, req, rest),
                }
            },
            SchemaOrRef::Schema(b) => if is_choice(*b) {
                conv_all_of(list, i + 1, spec, stk, acc, req, rest.push(conv_schema(*b, spec, stk)))
            } else {
                conv_all_of(
                    list,
                    i + 1,
                    spec,
                    stk,
                    merge_props(b.properties, 0, spec, stk, acc),
                    req + ir::strings_view(b.required@),
                    rest,
                )
            },
        }
    }
}

// ---- Views of what the converters build ------------------------------------------

/// The views of a list of named properties.
pub open spec fn props_view(m: Seq<(String, Property)>) -> Seq<(Seq<char>, PropertyV)> {
    Seq::new(m.len(), |i: int| (m[i].0@, m[i].1@))
}

/// The views of a list of representations.
pub open spec fn reprs_view(v: Seq<TypeRepr>) -> Seq<TypeReprV> {
    Seq::new(v.len(), |i: int| v[i]@)
}

proof fn lemma_object_view(props: Vec<(String, Property)>)
    ensures
        (TypeRepr::Object { properties: props })@ == (TypeReprV::Object {
            properties: props_view(props@),
        }),
{
    reveal_with_fuel(ir::repr_view, 2);
    let v = (TypeRepr::Object { properties: props })@;
    assert(v->Object_properties =~= props_view(props@));
}

proof fn lemma_union_view(variants: Vec<TypeRepr>, d: Option<String>)
    ensures
        (TypeRepr::Union { variants, discriminator: d })@ == (TypeReprV::Union {
            variants: reprs_view(variants@),
            discriminator: ir::opt_chars(d),
        }),
{
    reveal_with_fuel(ir::repr_view, 2);
    let v = (TypeRepr::Union { variants, discriminator: d })@;
    assert(v->Union_variants =~= reprs_view(variants@));
}

proof fn lemma_intersection_view(members: Vec<TypeRepr>)
    ensures
        (TypeRepr::Intersection { members })@ == (TypeReprV::Intersection {
            members: reprs_view(members@),
        }),
{
    reveal_with_fuel(ir::repr_view, 2);
    let v = (TypeRepr::Intersection { members })@;
    assert(v->Intersection_members =~= reprs_view(members@));
}

proof fn lemma_tuple_view(items: Vec<TypeRepr>)
    ensures
        (TypeRepr::Tuple { items })@ == (TypeReprV::Tuple { items: reprs_view(items@) }),
{
    reveal_with_fuel(ir::repr_view, 2);
    let v = (TypeRepr::Tuple { items })@;
    assert(v->Tuple_items =~= reprs_view(items@));
}

impl Constraints {
    /// Constraints that constrain nothing.
    pub fn none() -> (r: Constraints)
        ensures
            r@ == ir::no_constraints(),
    {
        Constraints {
            min_length: None,
            max_length: None,
            pattern: None,
            minimum: None,
            maximum: None,
            exclusive_minimum: None,
            exclusive_maximum: None,
            multiple_of: None,
            min_items: None,
            max_items: None,
        }
    }
}

// ---- Executable helpers -------------------------------------------------------------

/// The name a `$ref` path refers to (`rsplit('/').next()`).
fn ref_name_exec(p: &String) -> (r: String)
    ensures
        r@ == ref_name(p@),
{
    let s = text::chars_of(p.as_str());
    let mut j: usize = s.len();
    assert(s@.take(s@.len() as int) =~= s@);
    while j > 0 && s[j - 1] != '/'
        invariant
            0 <= j <= s@.len(),
            last_index_of(s@.take(j as int), '/') == last_index_of(s@, '/'),
        decreases j,
    {
        assert(s@.take(j as int).drop_last() =~= s@.take(j - 1));
        j = j - 1;
    }
    proof {
        assert(s@.take(s@.len() as int) =~= s@);
        if j > 0 {
            assert(s@.take(j as int).last() == '/');
        } else {
            assert(s@.take(0) =~= Seq::<char>::empty());
        }
    }
    let mut out: Vec<char> = Vec::new();
    let mut k: usize = j;
    while k < s.len()
        invariant
            j <= k <= s@.len(),
            out@ == s@.subrange(j as int, k as int),
        decreases s.len() - k,
    {
        out.push(s[k]);
        k = k + 1;
    }
    assert(out@ =~= s@.skip(j as int));
    text::string_of(out.as_slice())
}

/// Whether the list `v` holds the string `s`.
fn contains_string(v: &Vec<String>, s: &String) -> (r: bool)
    ensures
        r == ir::strings_view(v@).contains(s@),
{
    let mut i: usize = 0;
    while i < v.len()
        invariant
            0 <= i <= v@.len(),
            forall|k: int| 0 <= k < i ==> ir::strings_view(v@)[k] != s@,
        decreases v.len() - i,
    {
        if v[i] == *s {
            assert(ir::strings_view(v@)[i as int] == s@);
            return true;
        }
        i = i + 1;
    }
    false
}

/// Whether the schema admits null.
fn is_nullable_exec(sch: &Schema) -> (r: bool)
    ensures
        r == is_nullable(*sch),
{
    if sch.nullable {
        return true;
    }
    match &sch.schema_type {
        Some(SchemaType::Array(v)) => {
            let null = text::owned("null");
            let mut i: usize = 0;
            while i < v.len()
                invariant
                    0 <= i <= v@.len(),
                    null@ == "null"@,
                    sch.schema_type == Some(SchemaType::Array(*v)),
                    forall|k: int| 0 <= k < i ==> (#[trigger] v@[k])@ != "null"@,
                decreases v.len() - i,
            {
                if v[i] == null {
                    assert((v@[i as int])@ == "null"@);
                    assert(holds_null(*v));
                    return true;
                }
                i = i + 1;
            }
            false
        },
        Some(SchemaType::Single(s)) => text::str_equal(s.as_str(), "null"),
        None => false,
    }
}

/// The type name that decides the representation.
fn effective_type_exec(t: &Option<SchemaType>) -> (r: Option<Vec<char>>)
    ensures
        match r {
            Some(c) => effective_type(*t) == Some(c@),
            None => effective_type(*t) is None,
        },
{
    match t {
        Some(SchemaType::Single(s)) => Some(text::chars_of(s.as_str())),
        Some(SchemaType::Array(v)) => {
            let null = text::owned("null");
            let mut i: usize = 0;
            assert(v@.skip(0) =~= v@);
            while i < v.len()
                invariant
                    0 <= i <= v@.len(),
                    null@ == "null"@,
                    *t == Some(SchemaType::Array(*v)),
                    first_non_null(v@.skip(i as int)) == first_non_null(v@),
                decreases v.len() - i,
            {
                assert(v@.skip(i as int)[0] == v@[i as int]);
                if v[i] != null {
                    assert(v@[i as int]@ != "null"@);
                    return Some(text::chars_of(v[i].as_str()));
                }
                assert(v@.skip(i as int).drop_first() =~= v@.skip(i + 1));
                i = i + 1;
            }
            None
        },
        None => None,
    }
}

/// The enum values of a list of JSON values.
fn enum_values_exec(v: &Vec<Value>) -> (r: Vec<EnumValue>)
    ensures
        r@.map_values(|e: EnumValue| e@) == enum_values(v@),
{
    let mut out: Vec<EnumValue> = Vec::new();
    let mut i: usize = 0;
    while i < v.len()
        invariant
            0 <= i <= v@.len(),
            out@.map_values(|e: EnumValue| e@) == enum_values(v@.take(i as int)),
        decreases v.len() - i,
    {
        let ghost before = out@.map_values(|e: EnumValue| e@);
        proof {
            assert(v@.take(i + 1).drop_last() =~= v@.take(i as int));
            assert(v@.take(i + 1).last() == v@[i as int]);
        }
        match &v[i] {
            Value::String(s) => {
                out.push(EnumValue::String(s.clone()));
            },
            Value::Number(Number::PosInt(n)) => {
                if *n <= 9223372036854775807u64 {
                    out.push(EnumValue::Integer(*n as i64));
                }
            },
            Value::Number(Number::NegInt(n)) => {
                out.push(EnumValue::Integer(*n));
            },
            _ => {},
        }
        assert(out@.map_values(|e: EnumValue| e@) =~= enum_values(v@.take(i + 1)));
        i = i + 1;
    }
    assert(v@.take(v@.len() as int) =~= v@);
    out
}

/// Inserts `(k, v)` into a property list as `IndexMap::insert` does.
fn insert_property(m: &mut Vec<(String, Property)>, k: String, v: Property)
    ensures
        props_view(final(m)@) == map_insert(props_view(old(m)@), k@, v@),
{
    let ghost pv = props_view(m@);
    let mut i: usize = 0;
    assert(pv.skip(0) =~= pv);
    while i < m.len()
        invariant
            0 <= i <= m@.len(),
            m@ == old(m)@,
            pv == props_view(m@),
            key_pos(pv.skip(i as int), k@) + i == key_pos(pv, k@),
        decreases m.len() - i,
    {
        assert(pv.skip(i as int)[0] == pv[i as int]);
        if m[i].0 == k {
            assert(key_pos(pv.skip(i as int), k@) == 0);
            let key = m[i].0.clone();
            m.set(i, (key, v));
            assert(props_view(m@) =~= map_insert(pv, k@, v@));
            return;
        }
        assert(pv.skip(i as int).drop_first() =~= pv.skip(i + 1));
        i = i + 1;
    }
    m.push((k, v));
    assert(props_view(m@) =~= map_insert(pv, k@, v@));
}

// ---- Schema conversion --------------------------------------------------------

/// `T | null` when `nullable`, else `T`.
fn maybe_nullable(repr: TypeRepr, nullable: bool) -> (r: TypeRepr)
    ensures
        r@ == nullable_v(repr@, nullable),
{
    if nullable {
        TypeRepr::Nullable(Box::new(repr))
    } else {
        repr
    }
}

/// A copy of an optional string.
fn copy_opt_string(o: &Option<String>) -> (r: Option<String>)
    ensures
        ir::opt_chars(r) == ir::opt_chars(*o),
{
    match o {
        Some(s) => Some(s.clone()),
        None => None,
    }
}

/// A copy of an optional value.
fn copy_opt_value(o: &Option<Value>) -> (r: Option<Value>)
    ensures
        ir::opt_value(r) == ir::opt_value(*o),
{
    match o {
        Some(v) => Some(v.deep_copy()),
        None => None,
    }
}

/// See `constraints_of`.
fn constraints_exec(s: &Schema) -> (r: Constraints)
    ensures
        r@ == constraints_of(*s),
{
    Constraints {
        min_length: s.min_length,
        max_length: s.max_length,
        pattern: copy_opt_string(&s.pattern),
        minimum: copy_opt_string(&s.minimum),
        maximum: copy_opt_string(&s.maximum),
        exclusive_minimum: copy_opt_string(&s.exclusive_minimum),
        exclusive_maximum: copy_opt_string(&s.exclusive_maximum),
        multiple_of: copy_opt_string(&s.multiple_of),
        min_items: s.min_items,
        max_items: s.max_items,
    }
}

/// A property as conversion creates it (see `new_property`).
fn make_property(name: &String, required: bool, repr: TypeRepr, src: &SchemaOrRef) -> (r: Property)
    ensures
        r@ == new_property(name@, required, repr@, *src),
{
    match src {
        SchemaOrRef::Schema(b) => Property {
            name: name.clone(),
            required,
            read_only: b.read_only,
            description: copy_opt_string(&b.description),
            default_value: copy_opt_value(&b.default),
            repr,
            constraints: constraints_exec(&**b),
        },
        SchemaOrRef::Ref { .. } => Property {
            name: name.clone(),
            required,
            read_only: false,
            description: None,
            default_value: None,
            repr,
            constraints: Constraints::none(),
        },
    }
}

/// A type definition as conversion creates it (see `new_typedef`).
fn make_typedef(name: &String, repr: TypeRepr, src: &SchemaOrRef) -> (r: TypeDef)
    ensures
        r@ == new_typedef(name@, repr@, *src),
{
    match src {
        SchemaOrRef::Schema(b) => TypeDef {
            name: name.clone(),
            description: copy_opt_string(&b.description),
            default_value: copy_opt_value(&b.default),
            format: copy_opt_string(&b.format),
            repr,
            constraints: constraints_exec(&**b),
        },
        SchemaOrRef::Ref { .. } => TypeDef {
            name: name.clone(),
            description: None,
            default_value: None,
            format: None,
            repr,
            constraints: Constraints::none(),
        },
    }
}

/// The component schemas named on a stack of schemas being expanded.
pub open spec fn names_of(stack: Seq<String>) -> Set<Seq<char>> {
    ir::strings_view(stack).to_set()
}

/// A copy of `stack` with `n` pushed on it.
fn pushed(stack: &Vec<String>, n: &String) -> (r: Vec<String>)
    ensures
        names_of(r@) == names_of(stack@).insert(n@),
{
    let mut out: Vec<String> = Vec::new();
    extend_strings(&mut out, stack);
    let ghost before = ir::strings_view(out@);
    assert(before =~= ir::strings_view(stack@));
    out.push(n.clone());
    proof {
        let t = ir::strings_view(out@);
        assert(t =~= before.push(n@));
        assert forall|y: Seq<char>| #[trigger] names_of(out@).contains(y) <==> names_of(
            stack@,
        ).insert(n@).contains(y) by {
            if y != n@ && t.contains(y) {
                let k = choose|k: int| 0 <= k < t.len() && t[k] == y;
                assert(before[k] == y);
            }
            if before.contains(y) {
                let k = choose|k: int| 0 <= k < before.len() && before[k] == y;
                assert(t[k] == y);
            }
            if y == n@ {
                assert(t[before.len() as int] == y);
            }
        }
        assert(names_of(out@) =~= names_of(stack@).insert(n@));
    }
    out
}

/// Converts a schema or reference: a `$ref` becomes a reference to the name
/// after its last `/`. `stack` names the component schemas being expanded
/// into an `allOf`.
fn convert_schema_or_ref(s: &SchemaOrRef, spec: &OpenApiSpec, stack: &Vec<String>) -> (r: TypeRepr)
    ensures
        r@ == conv_sor(*s, *spec, names_of(stack@)),
    decreases unexpanded(*spec, names_of(stack@)), *s, 0int,
{
    match s {
        SchemaOrRef::Ref { ref_path } => TypeRepr::Ref { name: ref_name_exec(ref_path) },
        SchemaOrRef::Schema(b) => convert_schema(&**b, spec, stack),
    }
}

/// Converts each schema of a list.
fn convert_list(v: &Vec<SchemaOrRef>, spec: &OpenApiSpec, stack: &Vec<String>) -> (r: Vec<TypeRepr>)
    ensures
        reprs_view(r@) == conv_list(*v, 0, *spec, names_of(stack@)),
    decreases unexpanded(*spec, names_of(stack@)), *v, 0int,
{
    let ghost stk = names_of(stack@);
    let mut out: Vec<TypeRepr> = Vec::new();
    let mut i: usize = 0;
    while i < v.len()
        invariant
            0 <= i <= v@.len(),
            stk == names_of(stack@),
            conv_list(*v, 0, *spec, stk) == reprs_view(out@) + conv_list(*v, i as int, *spec, stk),
        decreases v@.len() - i,
    {
        let x = convert_schema_or_ref(&v[i], spec, stack);
        let ghost before = reprs_view(out@);
        out.push(x);
        assert(reprs_view(out@) =~= before.push(x@));
        assert(before + conv_list(*v, i as int, *spec, stk) =~= reprs_view(out@) + conv_list(
            *v,
            i + 1,
            *spec,
            stk,
        ));
        i = i + 1;
    }
    assert(reprs_view(out@) + Seq::<TypeReprV>::empty() =~= reprs_view(out@));
    out
}

/// Converts a schema (see `conv_schema`).
fn convert_schema(sch: &Schema, spec: &OpenApiSpec, stack: &Vec<String>) -> (r: TypeRepr)
    ensures
        r@ == conv_schema(*sch, *spec, names_of(stack@)),
    decreases unexpanded(*spec, names_of(stack@)), *sch, 2int,
{
    let n = is_nullable_exec(sch);
    match &sch.all_of {
        Some(list) => {
            return convert_all_of(list, &sch.required, spec, stack);
        },
        None => {},
    }
    match &sch.one_of {
        Some(list) => {
            let vs = convert_list(list, spec, stack);
            let d = match &sch.discriminator {
                Some(d) => Some(d.property_name.clone()),
                None => None,
            };
            proof {
                lemma_union_view(vs, d);
            }
            return maybe_nullable(TypeRepr::Union { variants: vs, discriminator: d }, n);
        },
        None => {},
    }
    match &sch.any_of {
        Some(list) => {
            let vs = convert_list(list, spec, stack);
            proof {
                lemma_union_view(vs, None);
            }
            return maybe_nullable(TypeRepr::Union { variants: vs, discriminator: None }, n);
        },
        None => {},
    }
    if sch.enum_values.len() > 0 {
        let values = enum_values_exec(&sch.enum_values);
        return maybe_nullable(TypeRepr::Enum { values }, n);
    }
    let r = convert_by_type(sch, spec, stack);
    maybe_nullable(r, n)
}

/// Converts a schema by its type (see `conv_by_type`).
fn convert_by_type(sch: &Schema, spec: &OpenApiSpec, stack: &Vec<String>) -> (r: TypeRepr)
    ensures
        r@ == conv_by_type(*sch, *spec, names_of(stack@)),
    decreases unexpanded(*spec, names_of(stack@)), *sch, 1int,
{
    let t = effective_type_exec(&sch.schema_type);
    let s_string = text::chars_of("string");
    let s_number = text::chars_of("number");
    let s_integer = text::chars_of("integer");
    let s_boolean = text::chars_of("boolean");
    let s_array = text::chars_of("array");
    let s_object = text::chars_of("object");
    let (is_object, named) = match &t {
        Some(c) => {
            if text::slices_equal(c.as_slice(), s_string.as_slice()) {
                return TypeRepr::Primitive(PrimitiveType::String);
            }
            if text::slices_equal(c.as_slice(), s_number.as_slice()) {
                return TypeRepr::Primitive(PrimitiveType::Number);
            }
            if text::slices_equal(c.as_slice(), s_integer.as_slice()) {
                return TypeRepr::Primitive(PrimitiveType::Integer);
            }
            if text::slices_equal(c.as_slice(), s_boolean.as_slice()) {
                return TypeRepr::Primitive(PrimitiveType::Boolean);
            }
            if text::slices_equal(c.as_slice(), s_array.as_slice()) {
                match &sch.prefix_items {
                    Some(list) => {
                        let vs = convert_list(list, spec, stack);
                        proof {
                            lemma_tuple_view(vs);
                        }
                        return TypeRepr::Tuple { items: vs };
                    },
                    None => {},
                }
                let items = match &sch.items {
                    Some(it) => convert_schema_or_ref(&**it, spec, stack),
                    None => TypeRepr::Any,
                };
                return TypeRepr::Array { items: Box::new(items) };
            }
            (text::slices_equal(c.as_slice(), s_object.as_slice()), true)
        },
        None => (false, false),
    };
    if (is_object || !named) && sch.properties.len() == 0 {
        match &sch.additional_properties {
            Some(AdditionalProperties::Schema(b)) => {
                let v = convert_schema_or_ref(&**b, spec, stack);
                return TypeRepr::Record { value: Box::new(v) };
            },
            Some(AdditionalProperties::Bool(true)) => {
                proof {
                    reveal_with_fuel(ir::repr_view, 2);
                }
                return TypeRepr::Record { value: Box::new(TypeRepr::Any) };
            },
            _ => {},
        }
    }
    if (is_object || !named) && sch.properties.len() > 0 {
        let props = convert_object(sch, spec, stack);
        proof {
            lemma_object_view(props);
        }
        TypeRepr::Object { properties: props }
    } else {
        TypeRepr::Any
    }
}

/// The properties of an object schema (see `conv_object`).
fn convert_object(sch: &Schema, spec: &OpenApiSpec, stack: &Vec<String>) -> (r: Vec<(String, Property)>)
    ensures
        props_view(r@) == conv_object(
            sch.properties,
            0,
            ir::strings_view(sch.required@),
            *spec,
            names_of(stack@),
            seq![],
        ),
    decreases unexpanded(*spec, names_of(stack@)), *sch, 0int,
{
    let ghost stk = names_of(stack@);
    let ghost req = ir::strings_view(sch.required@);
    let ghost target = conv_object(sch.properties, 0, req, *spec, stk, seq![]);
    let mut m: Vec<(String, Property)> = Vec::new();
    let mut i: usize = 0;
    assert(props_view(m@) =~= Seq::<(Seq<char>, PropertyV)>::empty());
    while i < sch.properties.len()
        invariant
            0 <= i <= sch.properties@.len(),
            stk == names_of(stack@),
            req == ir::strings_view(sch.required@),
            target == conv_object(sch.properties, 0, req, *spec, stk, seq![]),
            conv_object(sch.properties, i as int, req, *spec, stk, props_view(m@)) == target,
        decreases sch.properties@.len() - i,
    {
        let name = &sch.properties[i].0;
        let repr = convert_schema_or_ref(&sch.properties[i].1, spec, stack);
        let required = contains_string(&sch.required, name);
        let p = make_property(name, required, repr, &sch.properties[i].1);
        insert_property(&mut m, name.clone(), p);
        i = i + 1;
    }
    m
}

/// Adds the properties of `props` to `target`, not required, each as
/// `IndexMap::insert` does.
fn merge_properties(
    target: &mut Vec<(String, Property)>,
    props: &Vec<(String, SchemaOrRef)>,
    spec: &OpenApiSpec,
    stack: &Vec<String>,
)
    ensures
        props_view(final(target)@) == merge_props(
            *props,
            0,
            *spec,
            names_of(stack@),
            props_view(old(target)@),
        ),
    decreases unexpanded(*spec, names_of(stack@)), *props, 0int,
{
    let ghost stk = names_of(stack@);
    let ghost goal = merge_props(*props, 0, *spec, stk, props_view(target@));
    let mut i: usize = 0;
    while i < props.len()
        invariant
            0 <= i <= props@.len(),
            stk == names_of(stack@),
            goal == merge_props(*props, 0, *spec, stk, props_view(old(target)@)),
            merge_props(*props, i as int, *spec, stk, props_view(target@)) == goal,
        decreases props@.len() - i,
    {
        let name = &props[i].0;
        let repr = convert_schema_or_ref(&props[i].1, spec, stack);
        let p = make_property(name, false, repr, &props[i].1);
        insert_property(target, name.clone(), p);
        i = i + 1;
    }
}

/// The component schema that a `$ref` names, when it is an inline schema.
fn resolve_member<'a>(ref_path: &String, spec: &'a OpenApiSpec) -> (r: Option<&'a Schema>)
    ensures
        match r {
            Some(s) => resolve_named(ref_path@, *spec) == Some(*s),
            None => resolve_named(ref_path@, *spec) is None,
        },
{
    let name = ref_name_exec(ref_path);
    match &spec.components {
        Some(c) => match openapi::find_entry(&c.schemas, name.as_str()) {
            Some(i) => match &c.schemas[i].1 {
                SchemaOrRef::Schema(s) => Some(&**s),
                _ => None,
            },
            None => None,
        },
        None => None,
    }
}

/// Marks a property required.
fn mark_required(p: &mut Property)
    ensures
        final(p)@ == (PropertyV { required: true, ..old(p)@ }),
{
    p.required = true;
}

/// Appends clones of the strings of `src` to `dst`.
fn extend_strings(dst: &mut Vec<String>, src: &Vec<String>)
    ensures
        ir::strings_view(final(dst)@) == ir::strings_view(old(dst)@) + ir::strings_view(src@),
{
    let mut i: usize = 0;
    while i < src.len()
        invariant
            0 <= i <= src@.len(),
            ir::strings_view(dst@) == ir::strings_view(old(dst)@) + ir::strings_view(src@).take(
                i as int,
            ),
        decreases src@.len() - i,
    {
        let ghost before = ir::strings_view(dst@);
        let x = src[i].clone();
        dst.push(x);
        assert(ir::strings_view(dst@) =~= before.push(src@[i as int]@));
        assert(ir::strings_view(src@).take(i + 1) =~= ir::strings_view(src@).take(i as int).push(
            src@[i as int]@,
        ));
        i = i + 1;
    }
    assert(ir::strings_view(src@).take(src@.len() as int) =~= ir::strings_view(src@));
}

/// Convert allOf with proper required field propagation: the properties of
/// every member are merged into one object, and the `required` lists of the
/// root and of every merged member apply to the merged properties. A member
/// that offers a choice is kept beside the object in an intersection, a
/// `$ref` one as the named reference; a `$ref` member whose schema is already
/// being expanded (`stack`) is skipped, which cuts a cycle of references.
fn convert_all_of(
    all_of: &Vec<SchemaOrRef>,
    root_required: &Vec<String>,
    spec: &OpenApiSpec,
    stack: &Vec<String>,
) -> (r: TypeRepr)
    ensures
        r@ == conv_all_of(
            *all_of,
            0,
            *spec,
            names_of(stack@),
            seq![],
            ir::strings_view(root_required@),
            seq![],
        ),
    decreases unexpanded(*spec, names_of(stack@)), *all_of, 0int,
{
    let ghost stk = names_of(stack@);
    let ghost goal = conv_all_of(*all_of, 0, *spec, stk, seq![], ir::strings_view(root_required@), seq![]);
    let mut merged: Vec<(String, Property)> = Vec::new();
    let mut rest: Vec<TypeRepr> = Vec::new();
    let mut all_required: Vec<String> = Vec::new();
    extend_strings(&mut all_required, root_required);
    assert(ir::strings_view(all_required@) =~= ir::strings_view(root_required@));
    assert(props_view(merged@) =~= Seq::<(Seq<char>, PropertyV)>::empty());
    assert(reprs_view(rest@) =~= Seq::<TypeReprV>::empty());
    let mut i: usize = 0;
    while i < all_of.len()
        invariant
            0 <= i <= all_of@.len(),
            stk == names_of(stack@),
            goal == conv_all_of(*all_of, 0, *spec, stk, seq![], ir::strings_view(root_required@), seq![]),
            conv_all_of(
                *all_of,
                i as int,
                *spec,
                stk,
                props_view(merged@),
                ir::strings_view(all_required@),
                reprs_view(rest@),
            ) == goal,
        decreases all_of@.len() - i,
    {
        let ghost before = reprs_view(rest@);
        match &all_of[i] {
            SchemaOrRef::Ref { ref_path } => {
                match resolve_member(ref_path, spec) {
                    Some(s) => {
                        let name = ref_name_exec(ref_path);
                        if s.one_of.is_some() || s.any_of.is_some() {
                            rest.push(TypeRepr::Ref { name });
                            assert(reprs_view(rest@) =~= before.push(TypeReprV::Ref { name: name@ }));
                        } else if !contains_string(stack, &name) {
                            let inner = pushed(stack, &name);
                            proof {
                                lemma_resolved_named(ref_path@, *spec);
                                lemma_expand_fewer(*spec, stk, name@);
                            }
                            extend_strings(&mut all_required, &s.required);
                            merge_properties(&mut merged, &s.properties, spec, &inner);
                        }
                    },
                    None => {},
                }
            },
            SchemaOrRef::Schema(s) => {
                if s.one_of.is_some() || s.any_of.is_some() {
                    let u = convert_schema(&**s, spec, stack);
                    rest.push(u);
                    assert(reprs_view(rest@) =~= before.push(u@));
                } else {
                    extend_strings(&mut all_required, &s.required);
                    merge_properties(&mut merged, &s.properties, spec, stack);
                }
            },
        }
        i = i + 1;
    }
    let ghost req = ir::strings_view(all_required@);
    let ghost before = props_view(merged@);
    let mut k: usize = 0;
    while k < merged.len()
        invariant
            0 <= k <= merged@.len(),
            before.len() == merged@.len(),
            req == ir::strings_view(all_required@),
            forall|j: int|
                0 <= j < k ==> (#[trigger] props_view(merged@)[j]) == apply_required(before, req)[j],
            forall|j: int| k <= j < merged@.len() ==> (#[trigger] props_view(merged@)[j]) == before[j],
        decreases merged@.len() - k,
    {
        let ghost pv = props_view(merged@);
        if contains_string(&all_required, &merged[k].1.name) {
            mark_required(&mut merged[k].1);
            assert(props_view(merged@) =~= pv.update(
                k as int,
                (pv[k as int].0, PropertyV { required: true, ..pv[k as int].1 }),
            ));
        }
        k = k + 1;
    }
    assert(props_view(merged@) =~= apply_required(before, req));
    proof {
        lemma_object_view(merged);
    }
    let obj = TypeRepr::Object { properties: merged };
    if rest.len() == 0 {
        return obj;
    }
    let ghost rv = reprs_view(rest@);
    let ghost ov = obj@;
    let mut members: Vec<TypeRepr> = Vec::new();
    members.push(obj);
    members.append(&mut rest);
    assert(reprs_view(members@) =~= seq![ov] + rv);
    proof {
        lemma_intersection_view(members);
    }
    TypeRepr::Intersection { members }
}

// ---- Endpoints: specification ------------------------------------------------------

/// The `Debug` name of a method (`Get`, `Post`, ...).
pub open spec fn method_debug(m: HttpMethod) -> Seq<char> {
    match m {
        HttpMethod::Get => "Get"@,
        HttpMethod::Post => "Post"@,
        HttpMethod::Put => "Put"@,
        HttpMethod::Patch => "Patch"@,
        HttpMethod::Delete => "Delete"@,
    }
}

/// `s` with every `from` replaced by `to`.
pub open spec fn replace_char(s: Seq<char>, from: char, to: char) -> Seq<char> {
    Seq::new(s.len(), |i: int| if s[i] == from { to } else { s[i] })
}

/// The operation id made up for an operation that has none:
/// `{method:?}_{path with '/' as '_'}`.
pub open spec fn default_operation_id(m: HttpMethod, path: Seq<char>) -> Seq<char> {
    method_debug(m) + "_"@ + replace_char(path, '/', '_')
}

/// The location that a parameter's `in` names (anything unknown is a query
/// parameter).
pub open spec fn location_of(l: Seq<char>) -> ParamLocation {
    if l == "path"@ {
        ParamLocation::Path
    } else if l == "query"@ {
        ParamLocation::Query
    } else if l == "header"@ {
        ParamLocation::Header
    } else if l == "cookie"@ {
        ParamLocation::Cookie
    } else {
        ParamLocation::Query
    }
}

/// The parameter that a `$ref` names among the component parameters (it
/// must be inline there), or the inline parameter itself.
pub open spec fn resolve_param(p: ParameterOrRef, spec: OpenApiSpec) -> Option<Parameter> {
    match p {
        ParameterOrRef::Parameter(x) => Some(x),
        ParameterOrRef::Ref { ref_path } => match spec.components {
            Some(c) => match openapi::lookup(c.parameters@, ref_name(ref_path@)) {
                Some(ParameterOrRef::Parameter(x)) => Some(x),
                _ => None,
            },
            None => None,
        },
    }
}

/// How an array query parameter is serialized: comma-separated in `form`
/// style without explode, repeated otherwise (the OpenAPI default for
/// `form`). Other styles, and parameters that are not arrays in the query,
/// have none.
pub open spec fn array_style_of(p: Parameter, r: TypeReprV) -> Option<ArrayStyle> {
    let form = match p.style {
        Some(s) => s@ == "form"@,
        None => true,
    };
    if location_of(p.location@) == ParamLocation::Query && r is Array && form {
        if p.explode == Some(false) {
            Some(ArrayStyle::Comma)
        } else {
            Some(ArrayStyle::Multi)
        }
    } else {
        None
    }
}

/// The representation of a schema or reference at the top level, where no
/// component schema is being expanded.
pub open spec fn conv_top(s: SchemaOrRef, spec: OpenApiSpec) -> TypeReprV {
    conv_sor(s, spec, Set::empty())
}

/// A parameter converted: a parameter without a schema is `Any`.
pub open spec fn conv_param(p: Parameter, spec: OpenApiSpec) -> EndpointParamV {
    let r = match p.schema {
        Some(s) => conv_top(s, spec),
        None => TypeReprV::Any,
    };
    EndpointParamV {
        name: p.name@,
        location: location_of(p.location@),
        required: p.required,
        repr: r,
        array_style: array_style_of(p, r),
    }
}

/// The parameters of a list, converted in order; a `$ref` parameter is
/// looked up among the component parameters and skipped when it is not
/// found there.
pub open spec fn conv_params(ps: Seq<ParameterOrRef>, spec: OpenApiSpec) -> Seq<EndpointParamV>
    decreases ps.len(),
{
    if ps.len() == 0 {
        seq![]
    } else {
        let rest = conv_params(ps.drop_last(), spec);
        match resolve_param(ps.last(), spec) {
            Some(p) => rest.push(conv_param(p, spec)),
            None => rest,
        }
    }
}

/// Whether a content map has an entry for the media type `mt`.
pub open spec fn has_media(content: Seq<(String, MediaType)>, mt: Seq<char>) -> bool {
    openapi::lookup(content, mt) is Some
}

/// The schema of the entry for the media type `mt` of a content map.
pub open spec fn media_schema(content: Seq<(String, MediaType)>, mt: Seq<char>) -> Option<SchemaOrRef> {
    match openapi::lookup(content, mt) {
        Some(m) => m.schema,
        None => None,
    }
}

/// How a request body is sent, and the schema of what is sent: JSON first,
/// then multipart form data, plain text and a byte stream; a body with none
/// of these media types is not typed.
pub open spec fn body_media(content: Seq<(String, MediaType)>) -> (ContentType, Option<SchemaOrRef>) {
    if has_media(content, "application/json"@) {
        (ContentType::Json, media_schema(content, "application/json"@))
    } else if has_media(content, "multipart/form-data"@) {
        (ContentType::FormData, media_schema(content, "multipart/form-data"@))
    } else if has_media(content, "text/plain"@) {
        (ContentType::TextPlain, media_schema(content, "text/plain"@))
    } else if has_media(content, "application/octet-stream"@) {
        (ContentType::OctetStream, media_schema(content, "application/octet-stream"@))
    } else {
        (ContentType::Empty, None)
    }
}

/// The request body that a `$ref` names among the component request bodies
/// (it must be inline there), or the inline body itself.
pub open spec fn resolve_body(b: RequestBodyOrRef, spec: OpenApiSpec) -> Option<RequestBody> {
    match b {
        RequestBodyOrRef::RequestBody(x) => Some(x),
        RequestBodyOrRef::Ref { ref_path } => match spec.components {
            Some(c) => match openapi::lookup(c.request_bodies@, ref_name(ref_path@)) {
                Some(RequestBodyOrRef::RequestBody(x)) => Some(x),
                _ => None,
            },
            None => None,
        },
    }
}

/// How the request body of an operation is sent, and its schema.
pub open spec fn request_media(b: Option<RequestBodyOrRef>, spec: OpenApiSpec) -> (
    ContentType,
    Option<SchemaOrRef>,
) {
    match b {
        Some(x) => match resolve_body(x, spec) {
            Some(rb) => body_media(rb.content@),
            None => (ContentType::Empty, None),
        },
        None => (ContentType::Empty, None),
    }
}

/// A success status code: three characters, the first `2`.
pub open spec fn is_success_code(c: Seq<char>) -> bool {
    c.len() == 3 && c[0] == '2'
}

/// An error status code: three characters, the first `4` or `5`.
pub open spec fn is_error_code(c: Seq<char>) -> bool {
    c.len() == 3 && (c[0] == '4' || c[0] == '5')
}

/// A success code, or with `error` an error code.
pub open spec fn status_matches(c: Seq<char>, error: bool) -> bool {
    if error {
        is_error_code(c)
    } else {
        is_success_code(c)
    }
}

/// The index of the first response, from `i` on and in document order,
/// whose code is a success code (with `error`, an error code); `rs.len()`
/// when there is none.
pub open spec fn first_status(rs: Seq<(String, ResponseOrRef)>, i: int, error: bool) -> int
    decreases rs.len() - i,
{
    if i < 0 || i >= rs.len() {
        rs.len() as int
    } else if status_matches(rs[i].0@, error) {
        i
    } else {
        first_status(rs, i + 1, error)
    }
}

/// The response that a `$ref` names among the component responses (it must
/// be inline there), or the inline response itself.
pub open spec fn resolve_response(r: ResponseOrRef, spec: OpenApiSpec) -> Option<Response> {
    match r {
        ResponseOrRef::Response(x) => Some(x),
        ResponseOrRef::Ref { ref_path } => match spec.components {
            Some(c) => match openapi::lookup(c.responses@, ref_name(ref_path@)) {
                Some(ResponseOrRef::Response(x)) => Some(x),
                _ => None,
            },
            None => None,
        },
    }
}

/// The first success response (with `error`, the first error response).
pub open spec fn pick_response(rs: Seq<(String, ResponseOrRef)>, spec: OpenApiSpec, error: bool) -> Option<
    Response,
> {
    let i = first_status(rs, 0, error);
    if 0 <= i < rs.len() {
        resolve_response(rs[i].1, spec)
    } else {
        None
    }
}

/// The JSON schema of a response.
pub open spec fn response_json(r: Option<Response>) -> Option<SchemaOrRef> {
    match r {
        Some(resp) => match resp.content {
            Some(c) => media_schema(c@, "application/json"@),
            None => None,
        },
        None => None,
    }
}

/// Some media type of a content map, from index `i` on, is a `text/` type.
pub open spec fn has_text_media(content: Seq<(String, MediaType)>, i: int) -> bool
    decreases content.len() - i,
{
    if i < 0 || i >= content.len() {
        false
    } else {
        text::has_prefix(content[i].0@, "text/"@) || has_text_media(content, i + 1)
    }
}

/// How the success response is read: as JSON when it has a JSON body, as
/// text for a `text/` body, as a blob for any other body, and not at all
/// when it has no body (or there is no success response).
pub open spec fn response_kind(r: Option<Response>) -> ResponseType {
    match r {
        Some(resp) => match resp.content {
            Some(c) => if c@.len() == 0 {
                ResponseType::Void
            } else if has_media(c@, "application/json"@) {
                ResponseType::Json
            } else if has_text_media(c@, 0) {
                ResponseType::Text
            } else {
                ResponseType::Blob
            },
            None => ResponseType::Void,
        },
        None => ResponseType::Void,
    }
}

/// An optional schema converted.
pub open spec fn conv_opt(s: Option<SchemaOrRef>, spec: OpenApiSpec) -> Option<TypeReprV> {
    match s {
        Some(x) => Some(conv_top(x, spec)),
        None => None,
    }
}

/// The endpoint for one operation: its id (or a made-up one), the path-level
/// then operation-level parameters, the request body and how it is sent, the
/// JSON body of the first success response and how that response is read,
/// and the JSON body of the first error response.
pub open spec fn conv_operation(
    path: Seq<char>,
    method: HttpMethod,
    op: Operation,
    path_params: Seq<ParameterOrRef>,
    spec: OpenApiSpec,
) -> EndpointV {
    let (content_type, body_schema) = request_media(op.request_body, spec);
    let success = pick_response(op.responses@, spec, false);
    let failure = pick_response(op.responses@, spec, true);
    EndpointV {
        path,
        method,
        operation_id: match op.operation_id {
            Some(id) => id@,
            None => default_operation_id(method, path),
        },
        summary: ir::opt_chars(op.summary),
        tags: ir::strings_view(op.tags@),
        parameters: conv_params(path_params + op.parameters@, spec),
        request_body: conv_opt(body_schema, spec),
        request_content_type: content_type,
        response: conv_opt(response_json(success), spec),
        response_type: response_kind(success),
        error_response: conv_opt(response_json(failure), spec),
    }
}

/// The endpoint of an optional operation, appended to `acc`.
pub open spec fn add_endpoint(
    acc: Seq<EndpointV>,
    path: Seq<char>,
    method: HttpMethod,
    op: Option<Operation>,
    path_params: Seq<ParameterOrRef>,
    spec: OpenApiSpec,
) -> Seq<EndpointV> {
    match op {
        Some(o) => acc.push(conv_operation(path, method, o, path_params, spec)),
        None => acc,
    }
}

/// The endpoints of a path item appended to `acc`, in method order get,
/// post, put, patch, delete.
pub open spec fn conv_path_item(
    acc: Seq<EndpointV>,
    path: Seq<char>,
    item: PathItem,
    spec: OpenApiSpec,
) -> Seq<EndpointV> {
    let pp = item.parameters@;
    let a1 = add_endpoint(acc, path, HttpMethod::Get, item.get, pp, spec);
    let a2 = add_endpoint(a1, path, HttpMethod::Post, item.post, pp, spec);
    let a3 = add_endpoint(a2, path, HttpMethod::Put, item.put, pp, spec);
    let a4 = add_endpoint(a3, path, HttpMethod::Patch, item.patch, pp, spec);
    add_endpoint(a4, path, HttpMethod::Delete, item.delete, pp, spec)
}

/// The endpoints of all paths, in order.
pub open spec fn conv_paths(paths: Seq<(String, PathItem)>, spec: OpenApiSpec) -> Seq<EndpointV>
    decreases paths.len(),
{
    if paths.len() == 0 {
        seq![]
    } else {
        conv_path_item(conv_paths(paths.drop_last(), spec), paths.last().0@, paths.last().1, spec)
    }
}

/// A type definition as conversion creates it: an inline schema `src`
/// gives it its description, default, format and constraints; a `$ref`
/// gives none.
pub open spec fn new_typedef(name: Seq<char>, repr: TypeReprV, src: SchemaOrRef) -> TypeDefV {
    match src {
        SchemaOrRef::Schema(b) => TypeDefV {
            name,
            description: ir::opt_chars(b.description),
            default_value: ir::opt_value(b.default),
            format: ir::opt_chars(b.format),
            repr,
            constraints: constraints_of(*b),
        },
        SchemaOrRef::Ref { .. } => TypeDefV {
            name,
            description: None,
            default_value: None,
            format: None,
            repr,
            constraints: ir::no_constraints(),
        },
    }
}

/// The type definitions of the component schemas, inserted in order as
/// `IndexMap::insert` does.
pub open spec fn conv_types(schemas: Seq<(String, SchemaOrRef)>, spec: OpenApiSpec) -> Seq<
    (Seq<char>, TypeDefV),
>
    decreases schemas.len(),
{
    if schemas.len() == 0 {
        seq![]
    } else {
        let k = schemas.last().0@;
        map_insert(
            conv_types(schemas.drop_last(), spec),
            k,
            new_typedef(k, conv_top(schemas.last().1, spec), schemas.last().1),
        )
    }
}

/// The intermediate representation of a document: the type definitions of
/// its component schemas and the endpoints of its operations.
pub open spec fn spec_convert(spec: OpenApiSpec) -> ApiSpecV {
    ApiSpecV {
        types: match spec.components {
            Some(c) => conv_types(c.schemas@, spec),
            None => seq![],
        },
        endpoints: conv_paths(spec.paths@, spec),
    }
}

// ---- Endpoints: conversion -----------------------------------------------------------

/// The `Debug` name of a method.
fn method_debug_exec(m: HttpMethod) -> (r: &'static str)
    ensures
        r@ == method_debug(m),
{
    match m {
        HttpMethod::Get => "Get",
        HttpMethod::Post => "Post",
        HttpMethod::Put => "Put",
        HttpMethod::Patch => "Patch",
        HttpMethod::Delete => "Delete",
    }
}

/// The operation id made up for an operation that has none.
fn default_operation_id_exec(m: HttpMethod, path: &String) -> (r: String)
    ensures
        r@ == default_operation_id(m, path@),
{
    let mut out = text::chars_of(method_debug_exec(m));
    text::push_str(&mut out, "_");
    let p = text::chars_of(path.as_str());
    let ghost base = out@;
    let mut i: usize = 0;
    while i < p.len()
        invariant
            0 <= i <= p@.len(),
            out@ == base + replace_char(p@, '/', '_').take(i as int),
        decreases p.len() - i,
    {
        if p[i] == '/' {
            out.push('_');
        } else {
            out.push(p[i]);
        }
        assert(replace_char(p@, '/', '_').take(i + 1) =~= replace_char(p@, '/', '_').take(
            i as int,
        ).push(replace_char(p@, '/', '_')[i as int]));
        i = i + 1;
    }
    assert(replace_char(p@, '/', '_').take(p@.len() as int) =~= replace_char(p@, '/', '_'));
    text::string_of(out.as_slice())
}

/// The location that a parameter's `in` names.
fn location_of_exec(l: &String) -> (r: ParamLocation)
    ensures
        r == location_of(l@),
{
    let c = text::chars_of(l.as_str());
    if text::slices_equal(c.as_slice(), text::chars_of("path").as_slice()) {
        ParamLocation::Path
    } else if text::slices_equal(c.as_slice(), text::chars_of("query").as_slice()) {
        ParamLocation::Query
    } else if text::slices_equal(c.as_slice(), text::chars_of("header").as_slice()) {
        ParamLocation::Header
    } else if text::slices_equal(c.as_slice(), text::chars_of("cookie").as_slice()) {
        ParamLocation::Cookie
    } else {
        ParamLocation::Query
    }
}

/// The schema an optional reference points at.
pub open spec fn deref_opt(o: Option<&SchemaOrRef>) -> Option<SchemaOrRef> {
    match o {
        Some(x) => Some(*x),
        None => None,
    }
}

/// See `has_media` and `media_schema`.
fn media_exec<'a>(content: &'a Vec<(String, MediaType)>, mt: &str) -> (r: (bool, Option<&'a SchemaOrRef>))
    ensures
        r.0 == has_media(content@, mt@),
        deref_opt(r.1) == media_schema(content@, mt@),
{
    match openapi::find_entry(content, mt) {
        Some(i) => match &content[i].1.schema {
            Some(s) => (true, Some(s)),
            None => (true, None),
        },
        None => (false, None),
    }
}

/// See `body_media`.
fn body_media_exec<'a>(content: &'a Vec<(String, MediaType)>) -> (r: (ContentType, Option<&'a SchemaOrRef>))
    ensures
        (r.0, deref_opt(r.1)) == body_media(content@),
{
    let j = media_exec(content, "application/json");
    if j.0 {
        return (ContentType::Json, j.1);
    }
    let m = media_exec(content, "multipart/form-data");
    if m.0 {
        return (ContentType::FormData, m.1);
    }
    let x = media_exec(content, "text/plain");
    if x.0 {
        return (ContentType::TextPlain, x.1);
    }
    let o = media_exec(content, "application/octet-stream");
    if o.0 {
        return (ContentType::OctetStream, o.1);
    }
    (ContentType::Empty, None)
}

/// See `resolve_body`.
fn resolve_body_exec<'a>(b: &'a RequestBodyOrRef, spec: &'a OpenApiSpec) -> (r: Option<&'a RequestBody>)
    ensures
        match r {
            Some(x) => resolve_body(*b, *spec) == Some(*x),
            None => resolve_body(*b, *spec) is None,
        },
{
    match b {
        RequestBodyOrRef::RequestBody(x) => Some(x),
        RequestBodyOrRef::Ref { ref_path } => {
            let name = ref_name_exec(ref_path);
            match &spec.components {
                Some(c) => match openapi::find_entry(&c.request_bodies, name.as_str()) {
                    Some(i) => match &c.request_bodies[i].1 {
                        RequestBodyOrRef::RequestBody(x) => Some(x),
                        _ => None,
                    },
                    None => None,
                },
                None => None,
            }
        },
    }
}

/// See `request_media`.
fn request_media_exec<'a>(b: &'a Option<RequestBodyOrRef>, spec: &'a OpenApiSpec) -> (r: (
    ContentType,
    Option<&'a SchemaOrRef>,
))
    ensures
        (r.0, deref_opt(r.1)) == request_media(*b, *spec),
{
    match b {
        Some(x) => match resolve_body_exec(x, spec) {
            Some(rb) => body_media_exec(&rb.content),
            None => (ContentType::Empty, None),
        },
        None => (ContentType::Empty, None),
    }
}

/// See `status_matches`.
fn status_matches_exec(c: &String, error: bool) -> (r: bool)
    ensures
        r == status_matches(c@, error),
{
    let s = text::chars_of(c.as_str());
    if s.len() != 3 {
        return false;
    }
    if error {
        s[0] == '4' || s[0] == '5'
    } else {
        s[0] == '2'
    }
}

/// See `first_status`.
fn first_status_exec(rs: &Vec<(String, ResponseOrRef)>, error: bool) -> (r: usize)
    ensures
        r as int == first_status(rs@, 0, error),
{
    let mut i: usize = 0;
    while i < rs.len()
        invariant
            0 <= i <= rs@.len(),
            first_status(rs@, 0, error) == first_status(rs@, i as int, error),
        decreases rs@.len() - i,
    {
        if status_matches_exec(&rs[i].0, error) {
            return i;
        }
        i = i + 1;
    }
    i
}

/// See `resolve_response`.
fn resolve_response_exec<'a>(r: &'a ResponseOrRef, spec: &'a OpenApiSpec) -> (o: Option<&'a Response>)
    ensures
        opt_response(o) == resolve_response(*r, *spec),
{
    match r {
        ResponseOrRef::Response(x) => Some(x),
        ResponseOrRef::Ref { ref_path } => {
            let name = ref_name_exec(ref_path);
            match &spec.components {
                Some(c) => match openapi::find_entry(&c.responses, name.as_str()) {
                    Some(i) => match &c.responses[i].1 {
                        ResponseOrRef::Response(x) => Some(x),
                        _ => None,
                    },
                    None => None,
                },
                None => None,
            }
        },
    }
}

/// The response an optional reference points at.
pub open spec fn opt_response(o: Option<&Response>) -> Option<Response> {
    match o {
        Some(x) => Some(*x),
        None => None,
    }
}

/// See `pick_response`.
fn pick_response_exec<'a>(rs: &'a Vec<(String, ResponseOrRef)>, spec: &'a OpenApiSpec, error: bool) -> (o:
    Option<&'a Response>)
    ensures
        opt_response(o) == pick_response(rs@, *spec, error),
{
    let i = first_status_exec(rs, error);
    if i < rs.len() {
        resolve_response_exec(&rs[i].1, spec)
    } else {
        None
    }
}

/// See `response_json`.
fn response_json_exec<'a>(r: Option<&'a Response>) -> (o: Option<&'a SchemaOrRef>)
    ensures
        deref_opt(o) == response_json(opt_response(r)),
{
    match r {
        Some(resp) => match &resp.content {
            Some(c) => media_exec(c, "application/json").1,
            None => None,
        },
        None => None,
    }
}

/// See `has_text_media`.
fn has_text_media_exec(content: &Vec<(String, MediaType)>) -> (r: bool)
    ensures
        r == has_text_media(content@, 0),
{
    let prefix = text::chars_of("text/");
    let mut i: usize = 0;
    while i < content.len()
        invariant
            0 <= i <= content@.len(),
            prefix@ == "text/"@,
            has_text_media(content@, 0) == has_text_media(content@, i as int),
        decreases content@.len() - i,
    {
        let key = text::chars_of(content[i].0.as_str());
        if text::starts_with(key.as_slice(), prefix.as_slice()) {
            return true;
        }
        i = i + 1;
    }
    false
}

/// See `response_kind`.
fn response_kind_exec(r: Option<&Response>) -> (k: ResponseType)
    ensures
        k == response_kind(opt_response(r)),
{
    match r {
        Some(resp) => match &resp.content {
            Some(c) => {
                if c.len() == 0 {
                    ResponseType::Void
                } else if media_exec(c, "application/json").0 {
                    ResponseType::Json
                } else if has_text_media_exec(c) {
                    ResponseType::Text
                } else {
                    ResponseType::Blob
                }
            },
            None => ResponseType::Void,
        },
        None => ResponseType::Void,
    }
}

/// Converts an optional schema.
fn convert_opt(s: Option<&SchemaOrRef>, spec: &OpenApiSpec) -> (r: Option<TypeRepr>)
    ensures
        ir::opt_repr(r) == conv_opt(deref_opt(s), *spec),
{
    match s {
        Some(x) => {
            let top: Vec<String> = Vec::new();
            assert(names_of(top@) =~= Set::<Seq<char>>::empty());
            Some(convert_schema_or_ref(x, spec, &top))
        },
        None => None,
    }
}

/// See `resolve_param`.
fn resolve_param_exec<'a>(p: &'a ParameterOrRef, spec: &'a OpenApiSpec) -> (r: Option<&'a Parameter>)
    ensures
        match r {
            Some(x) => resolve_param(*p, *spec) == Some(*x),
            None => resolve_param(*p, *spec) is None,
        },
{
    match p {
        ParameterOrRef::Parameter(x) => Some(x),
        ParameterOrRef::Ref { ref_path } => {
            let name = ref_name_exec(ref_path);
            match &spec.components {
                Some(c) => match openapi::find_entry(&c.parameters, name.as_str()) {
                    Some(i) => match &c.parameters[i].1 {
                        ParameterOrRef::Parameter(x) => Some(x),
                        _ => None,
                    },
                    None => None,
                },
                None => None,
            }
        },
    }
}

/// See `array_style_of`.
fn array_style_exec(p: &Parameter, r: &TypeRepr) -> (s: Option<ArrayStyle>)
    ensures
        s == array_style_of(*p, r@),
{
    let form = match &p.style {
        Some(s) => text::str_equal(s.as_str(), "form"),
        None => true,
    };
    let query = match location_of_exec(&p.location) {
        ParamLocation::Query => true,
        _ => false,
    };
    let arr = match r {
        TypeRepr::Array { .. } => true,
        _ => false,
    };
    if query && arr && form {
        match p.explode {
            Some(false) => Some(ArrayStyle::Comma),
            _ => Some(ArrayStyle::Multi),
        }
    } else {
        None
    }
}

/// Converts a parameter.
fn convert_param(p: &Parameter, spec: &OpenApiSpec) -> (r: EndpointParam)
    ensures
        r@ == conv_param(*p, *spec),
{
    let top: Vec<String> = Vec::new();
    assert(names_of(top@) =~= Set::<Seq<char>>::empty());
    let repr = match &p.schema {
        Some(s) => convert_schema_or_ref(s, spec, &top),
        None => TypeRepr::Any,
    };
    let array_style = array_style_exec(p, &repr);
    EndpointParam {
        name: p.name.clone(),
        location: location_of_exec(&p.location),
        required: p.required,
        repr,
        array_style,
    }
}

/// The views of a list of endpoint parameters.
pub open spec fn params_view(v: Seq<EndpointParam>) -> Seq<EndpointParamV> {
    v.map_values(|p: EndpointParam| p@)
}

/// Converts the path-level then operation-level inline parameters.
fn convert_params(a: &Vec<ParameterOrRef>, b: &Vec<ParameterOrRef>, spec: &OpenApiSpec) -> (r: Vec<
    EndpointParam,
>)
    ensures
        params_view(r@) == conv_params(a@ + b@, *spec),
{
    let ghost all = a@ + b@;
    let mut out: Vec<EndpointParam> = Vec::new();
    assert(all.take(0) =~= Seq::<ParameterOrRef>::empty());
    assert(params_view(out@) =~= Seq::<EndpointParamV>::empty());
    let mut i: usize = 0;
    while i < a.len()
        invariant
            all == a@ + b@,
            0 <= i <= a@.len(),
            conv_params(all.take(i as int), *spec) == params_view(out@),
        decreases a@.len() - i,
    {
        push_param(&mut out, &a[i], Ghost(all), Ghost(i as int), spec);
        i = i + 1;
    }
    let mut j: usize = 0;
    while j < b.len()
        invariant
            all == a@ + b@,
            0 <= j <= b@.len(),
            conv_params(all.take(a@.len() + j as int), *spec) == params_view(out@),
        decreases b@.len() - j,
    {
        push_param(&mut out, &b[j], Ghost(all), Ghost(a@.len() + j), spec);
        j = j + 1;
    }
    assert(all.take(all.len() as int) =~= all);
    out
}

/// Appends the conversion of `all[k]` (when it resolves) to `out`.
fn push_param(
    out: &mut Vec<EndpointParam>,
    item: &ParameterOrRef,
    Ghost(all): Ghost<Seq<ParameterOrRef>>,
    Ghost(k): Ghost<int>,
    spec: &OpenApiSpec,
)
    requires
        0 <= k < all.len(),
        *item == all[k],
        conv_params(all.take(k), *spec) == params_view(old(out)@),
    ensures
        conv_params(all.take(k + 1), *spec) == params_view(final(out)@),
{
    proof {
        assert(all.take(k + 1).drop_last() =~= all.take(k));
        assert(all.take(k + 1).last() == all[k]);
    }
    match resolve_param_exec(item, spec) {
        Some(p) => {
            let x = convert_param(p, spec);
            let ghost before = params_view(out@);
            out.push(x);
            assert(params_view(out@) =~= before.push(x@));
        },
        None => {},
    }
}

/// Converts one operation of a path into an endpoint.
fn convert_operation(
    path: &String,
    method: HttpMethod,
    op: &Operation,
    path_params: &Vec<ParameterOrRef>,
    spec: &OpenApiSpec,
) -> (r: Endpoint)
    ensures
        r@ == conv_operation(path@, method, *op, path_params@, *spec),
{
    let operation_id = match &op.operation_id {
        Some(id) => id.clone(),
        None => default_operation_id_exec(method, path),
    };
    let parameters = convert_params(path_params, &op.parameters, spec);
    let (request_content_type, body_schema) = request_media_exec(&op.request_body, spec);
    let success = pick_response_exec(&op.responses, spec, false);
    let failure = pick_response_exec(&op.responses, spec, true);
    let request_body = convert_opt(body_schema, spec);
    let response = convert_opt(response_json_exec(success), spec);
    let error_response = convert_opt(response_json_exec(failure), spec);
    let response_type = response_kind_exec(success);
    let summary = match &op.summary {
        Some(s) => Some(s.clone()),
        None => None,
    };
    let mut tags: Vec<String> = Vec::new();
    extend_strings(&mut tags, &op.tags);
    assert(ir::strings_view(tags@) =~= ir::strings_view(op.tags@));
    let e = Endpoint {
        path: path.clone(),
        method,
        operation_id,
        summary,
        tags,
        parameters,
        request_body,
        request_content_type,
        response,
        response_type,
        error_response,
    };
    assert(e@ == conv_operation(path@, method, *op, path_params@, *spec));
    e
}

/// The views of a list of endpoints.
pub open spec fn endpoints_view(v: Seq<Endpoint>) -> Seq<EndpointV> {
    v.map_values(|e: Endpoint| e@)
}

/// Appends the endpoint of an optional operation.
fn push_endpoint(
    out: &mut Vec<Endpoint>,
    path: &String,
    method: HttpMethod,
    op: &Option<Operation>,
    path_params: &Vec<ParameterOrRef>,
    spec: &OpenApiSpec,
)
    ensures
        endpoints_view(final(out)@) == add_endpoint(
            endpoints_view(old(out)@),
            path@,
            method,
            *op,
            path_params@,
            *spec,
        ),
{
    match op {
        Some(o) => {
            let e = convert_operation(path, method, o, path_params, spec);
            let ghost before = endpoints_view(out@);
            out.push(e);
            assert(endpoints_view(out@) =~= before.push(e@));
        },
        None => {},
    }
}

/// Converts the operations of each path into endpoints, in path order and,
/// within a path, in method order get, post, put, patch, delete.
fn convert_paths(spec: &OpenApiSpec) -> (r: Vec<Endpoint>)
    ensures
        endpoints_view(r@) == conv_paths(spec.paths@, *spec),
{
    let mut endpoints: Vec<Endpoint> = Vec::new();
    let mut i: usize = 0;
    assert(spec.paths@.take(0) =~= Seq::<(String, PathItem)>::empty());
    assert(endpoints_view(endpoints@) =~= Seq::<EndpointV>::empty());
    while i < spec.paths.len()
        invariant
            0 <= i <= spec.paths@.len(),
            conv_paths(spec.paths@.take(i as int), *spec) == endpoints_view(endpoints@),
        decreases spec.paths@.len() - i,
    {
        let path = &spec.paths[i].0;
        let item = &spec.paths[i].1;
        let pp = &item.parameters;
        proof {
            let t = spec.paths@.take(i + 1);
            assert(t.drop_last() =~= spec.paths@.take(i as int));
            assert(t.last() == spec.paths@[i as int]);
        }
        push_endpoint(&mut endpoints, path, HttpMethod::Get, &item.get, pp, spec);
        push_endpoint(&mut endpoints, path, HttpMethod::Post, &item.post, pp, spec);
        push_endpoint(&mut endpoints, path, HttpMethod::Put, &item.put, pp, spec);
        push_endpoint(&mut endpoints, path, HttpMethod::Patch, &item.patch, pp, spec);
        push_endpoint(&mut endpoints, path, HttpMethod::Delete, &item.delete, pp, spec);
        i = i + 1;
    }
    assert(spec.paths@.take(spec.paths@.len() as int) =~= spec.paths@);
    endpoints
}

/// The views of a list of named type definitions.
pub open spec fn types_view(v: Seq<(String, TypeDef)>) -> Seq<(Seq<char>, TypeDefV)> {
    v.map_values(|e: (String, TypeDef)| (e.0@, e.1@))
}

/// Inserts `(k, v)` into a type list as `IndexMap::insert` does.
fn insert_typedef(m: &mut Vec<(String, TypeDef)>, k: String, v: TypeDef)
    ensures
        types_view(final(m)@) == map_insert(types_view(old(m)@), k@, v@),
{
    let ghost pv = types_view(m@);
    let mut i: usize = 0;
    assert(pv.skip(0) =~= pv);
    while i < m.len()
        invariant
            0 <= i <= m@.len(),
            m@ == old(m)@,
            pv == types_view(m@),
            key_pos(pv.skip(i as int), k@) + i == key_pos(pv, k@),
        decreases m.len() - i,
    {
        assert(pv.skip(i as int)[0] == pv[i as int]);
        if m[i].0 == k {
            assert(key_pos(pv.skip(i as int), k@) == 0);
            let key = m[i].0.clone();
            m.set(i, (key, v));
            assert(types_view(m@) =~= map_insert(pv, k@, v@));
            return;
        }
        assert(pv.skip(i as int).drop_first() =~= pv.skip(i + 1));
        i = i + 1;
    }
    m.push((k, v));
    assert(types_view(m@) =~= map_insert(pv, k@, v@));
}

/// Converts the component schemas into named type definitions.
fn convert_schemas(spec: &OpenApiSpec) -> (r: Vec<(String, TypeDef)>)
    ensures
        match spec.components {
            Some(c) => types_view(r@) == conv_types(c.schemas@, *spec),
            None => r@.len() == 0,
        },
{
    let components = match &spec.components {
        Some(c) => c,
        None => return Vec::new(),
    };
    let top: Vec<String> = Vec::new();
    assert(names_of(top@) =~= Set::<Seq<char>>::empty());
    let mut types: Vec<(String, TypeDef)> = Vec::new();
    let mut i: usize = 0;
    assert(components.schemas@.take(0) =~= Seq::<(String, SchemaOrRef)>::empty());
    assert(types_view(types@) =~= Seq::<(Seq<char>, TypeDefV)>::empty());
    while i < components.schemas.len()
        invariant
            0 <= i <= components.schemas@.len(),
            spec.components == Some(*components),
            names_of(top@) == Set::<Seq<char>>::empty(),
            conv_types(components.schemas@.take(i as int), *spec) == types_view(types@),
        decreases components.schemas@.len() - i,
    {
        proof {
            let t = components.schemas@.take(i + 1);
            assert(t.drop_last() =~= components.schemas@.take(i as int));
            assert(t.last() == components.schemas@[i as int]);
        }
        let name = &components.schemas[i].0;
        let repr = convert_schema_or_ref(&components.schemas[i].1, spec, &top);
        let td = make_typedef(name, repr, &components.schemas[i].1);
        insert_typedef(&mut types, name.clone(), td);
        i = i + 1;
    }
    assert(components.schemas@.take(components.schemas@.len() as int) =~= components.schemas@);
    types
}

/// Why a spec could not be converted.
#[derive(Debug)]
pub enum ConvertError {
    MissingOperationId { method: String, path: String },
}

/// Convert a parsed OpenAPI spec into the intermediate representation: the
/// component schemas become named types and every operation an endpoint.
/// Conversion never fails; an operation without an id gets a made-up one.
pub fn convert(spec: &OpenApiSpec) -> (r: Result<ApiSpec, ConvertError>)
    ensures
        r matches Ok(api) && api@ == spec_convert(*spec),
{
    let types = convert_schemas(spec);
    let endpoints = convert_paths(spec);
    let api = ApiSpec { types, endpoints };
    proof {
        if spec.components is None {
            assert(types_view(api.types@) =~= Seq::<(Seq<char>, TypeDefV)>::empty());
        }
        assert(api@.types == types_view(api.types@));
        assert(api@.endpoints == endpoints_view(api.endpoints@));
    }
    Ok(api)
}

// ---- allOf and required properties -------------------------------------------------

/// The schema that member `k` of an `allOf` merges into its object, where the
/// component schemas `stk` are being expanded: an inline schema that offers no
/// choice, or the component schema that a `$ref` names when it is found,
/// offers no choice and is not being expanded.
pub open spec fn merged_member(list: Vec<SchemaOrRef>, k: int, spec: OpenApiSpec, stk: Set<Seq<char>>) -> Option<
    Schema,
> {
    match list@[k] {
        SchemaOrRef::Ref { ref_path } => match resolve_named(ref_path@, spec) {
            Some(s) => if !is_choice(s) && !stk.contains(ref_name(ref_path@)) {
                Some(s)
            } else {
                None
            },
            None => None,
        },
        SchemaOrRef::Schema(b) => if !is_choice(*b) {
            Some(*b)
        } else {
            None
        },
    }
}

/// Some member of the `allOf` that is merged, from index `i` on, lists `n`
/// as required.
pub open spec fn required_by_member(
    list: Vec<SchemaOrRef>,
    i: int,
    spec: OpenApiSpec,
    stk: Set<Seq<char>>,
    n: Seq<char>,
) -> bool
    decreases list@.len() - i,
{
    if i < 0 || i >= list@.len() {
        false
    } else {
        (match merged_member(list, i, spec, stk) {
            Some(s) => ir::strings_view(s.required@).contains(n),
            None => false,
        }) || required_by_member(list, i + 1, spec, stk, n)
    }
}

/// The properties of the object that an `allOf` merges into: the result
/// itself, or the first member of the intersection.
pub open spec fn merged_object(r: TypeReprV) -> Option<Seq<(Seq<char>, PropertyV)>> {
    match r {
        TypeReprV::Object { properties } => Some(properties),
        TypeReprV::Intersection { members } => if members.len() > 0 {
            match members[0] {
                TypeReprV::Object { properties } => Some(properties),
                _ => None,
            }
        } else {
            None
        },
        _ => None,
    }
}

/// No property of `m` is marked required.
pub open spec fn none_required(m: Seq<(Seq<char>, PropertyV)>) -> bool {
    forall|j: int| 0 <= j < m.len() ==> !(#[trigger] m[j]).1.required
}

proof fn lemma_map_insert_none_required(
    m: Seq<(Seq<char>, PropertyV)>,
    k: Seq<char>,
    r: TypeReprV,
    src: SchemaOrRef,
)
    requires
        none_required(m),
    ensures
        none_required(map_insert(m, k, new_property(k, false, r, src))),
{
    let m2 = map_insert(m, k, new_property(k, false, r, src));
    assert forall|j: int| 0 <= j < m2.len() implies !(#[trigger] m2[j]).1.required by {
        let i = key_pos(m, k);
        if !(0 <= i < m.len()) && j < m.len() {
            assert(m2[j] == m[j]);
        } else if 0 <= i < m.len() && j != i {
            assert(m2[j] == m[j]);
        }
    }
}

proof fn lemma_merge_none_required(
    props: Vec<(String, SchemaOrRef)>,
    i: int,
    spec: OpenApiSpec,
    stk: Set<Seq<char>>,
    acc: Seq<(Seq<char>, PropertyV)>,
)
    requires
        none_required(acc),
    ensures
        none_required(merge_props(props, i, spec, stk, acc)),
    decreases props@.len() - i,
{
    if 0 <= i < props@.len() {
        let k = props@[i].0@;
        let r = conv_sor(props@[i].1, spec, stk);
        lemma_map_insert_none_required(acc, k, r, props@[i].1);
        lemma_merge_none_required(
            props,
            i + 1,
            spec,
            stk,
            map_insert(acc, k, new_property(k, false, r, props@[i].1)),
        );
    }
}

proof fn lemma_all_of_required(
    list: Vec<SchemaOrRef>,
    i: int,
    spec: OpenApiSpec,
    stk: Set<Seq<char>>,
    acc: Seq<(Seq<char>, PropertyV)>,
    req: Seq<Seq<char>>,
    rest: Seq<TypeReprV>,
)
    requires
        none_required(acc),
    ensures
        merged_object(conv_all_of(list, i, spec, stk, acc, req, rest)) matches Some(ps) && forall|j: int|
            0 <= j < ps.len() ==> ((#[trigger] ps[j]).1.required <==> (req.contains(ps[j].1.name)
                || required_by_member(list, i, spec, stk, ps[j].1.name))),
    decreases list@.len() - i,
{
    if i < 0 || i >= list@.len() {
        let ps = apply_required(acc, req);
        let obj = TypeReprV::Object { properties: ps };
        if rest.len() > 0 {
            assert((seq![obj] + rest)[0] == obj);
        }
        assert forall|j: int|
            0 <= j < ps.len() implies ((#[trigger] ps[j]).1.required <==> (req.contains(ps[j].1.name)
                || required_by_member(list, i, spec, stk, ps[j].1.name))) by {
            assert(!acc[j].1.required);
        }
    } else {
        let (s, inner) = match list@[i] {
            SchemaOrRef::Ref { ref_path } => (resolve_named(ref_path@, spec), stk.insert(ref_name(ref_path@))),
            SchemaOrRef::Schema(b) => (Some(*b), stk),
        };
        match merged_member(list, i, spec, stk) {
            Some(s) => {
                let m = merge_props(s.properties, 0, spec, inner, acc);
                let req2 = req + ir::strings_view(s.required@);
                lemma_merge_none_required(s.properties, 0, spec, inner, acc);
                lemma_all_of_required(list, i + 1, spec, stk, m, req2, rest);
                let ps = merged_object(conv_all_of(list, i + 1, spec, stk, m, req2, rest))->Some_0;
                assert forall|j: int|
                    0 <= j < ps.len() implies ((#[trigger] ps[j]).1.required <==> (req.contains(
                        ps[j].1.name,
                    ) || required_by_member(list, i, spec, stk, ps[j].1.name))) by {
                    let n = ps[j].1.name;
                    assert(req2.contains(n) <==> (req.contains(n) || ir::strings_view(
                        s.required@,
                    ).contains(n))) by {
                        if req2.contains(n) {
                            let w = choose|w: int| 0 <= w < req2.len() && req2[w] == n;
                            if w >= req.len() {
                                assert(ir::strings_view(s.required@)[w - req.len()] == n);
                            }
                        }
                        if req.contains(n) {
                            let w = choose|w: int| 0 <= w < req.len() && req[w] == n;
                            assert(req2[w] == n);
                        }
                        if ir::strings_view(s.required@).contains(n) {
                            let w = choose|w: int|
                                0 <= w < ir::strings_view(s.required@).len() && ir::strings_view(
                                    s.required@,
                                )[w] == n;
                            assert(req2[req.len() + w] == n);
                        }
                    }
                }
            },
            None => {
                let rest2 = match list@[i] {
                    SchemaOrRef::Ref { ref_path } => match resolve_named(ref_path@, spec) {
                        Some(t) => if is_choice(t) {
                            rest.push(TypeReprV::Ref { name: ref_name(ref_path@) })
                        } else {
                            rest
                        },
                        None => rest,
                    },
                    SchemaOrRef::Schema(b) => rest.push(conv_schema(*b, spec, stk)),
                };
                lemma_all_of_required(list, i + 1, spec, stk, acc, req, rest2);
            },
        }
    }
}

/// `allOf` carries `required` from every level: an `allOf` schema merges
/// into one object (intersected with the members that offer a choice), in
/// which a property is required exactly when the schema itself or one of its
/// merged members (a `$ref` member being the component schema it names)
/// lists it as required.
pub proof fn law_all_of_required(sch: Schema, spec: OpenApiSpec, stk: Set<Seq<char>>)
    requires
        sch.all_of is Some,
    ensures
        merged_object(conv_schema(sch, spec, stk)) matches Some(ps) && forall|j: int|
            0 <= j < ps.len() ==> ((#[trigger] ps[j]).1.required <==> (ir::strings_view(
                sch.required@,
            ).contains(ps[j].1.name) || required_by_member(
                sch.all_of->Some_0,
                0,
                spec,
                stk,
                ps[j].1.name,
            ))),
{
    let list = sch.all_of->Some_0;
    let e: Seq<(Seq<char>, PropertyV)> = seq![];
    let r: Seq<TypeReprV> = seq![];
    lemma_all_of_required(list, 0, spec, stk, e, ir::strings_view(sch.required@), r);
}

// ---- Primitive types --------------------------------------------------------------

/// Each of the four primitive type names gives its own primitive: a schema
/// whose `type` is `string`, `number`, `integer` or `boolean`, with no
/// `allOf`, `oneOf`, `anyOf` or `enum` and not nullable, converts to the
/// string, number, integer or boolean primitive respectively.
pub proof fn law_primitive_types(sch: Schema, spec: OpenApiSpec, stk: Set<Seq<char>>, t: String)
    requires
        sch.schema_type == Some(SchemaType::Single(t)),
        sch.all_of is None,
        sch.one_of is None,
        sch.any_of is None,
        sch.enum_values@.len() == 0,
        !sch.nullable,
    ensures
        t@ == "string"@ ==> conv_schema(sch, spec, stk) == TypeReprV::Primitive(ir::PrimitiveType::String),
        t@ == "number"@ ==> conv_schema(sch, spec, stk) == TypeReprV::Primitive(ir::PrimitiveType::Number),
        t@ == "integer"@ ==> conv_schema(sch, spec, stk) == TypeReprV::Primitive(ir::PrimitiveType::Integer),
        t@ == "boolean"@ ==> conv_schema(sch, spec, stk) == TypeReprV::Primitive(ir::PrimitiveType::Boolean),
{
    reveal_strlit("string");
    reveal_strlit("number");
    reveal_strlit("integer");
    reveal_strlit("boolean");
    reveal_strlit("null");
    assert("string"@[0] == 's' && "number"@[0] == 'n' && "integer"@[0] == 'i' && "boolean"@[0] == 'b');
    assert("null"@[1] == 'u' && "number"@[1] == 'u' && "null"@.len() == 4 && "number"@.len() == 6);
    assert("string"@ != "number"@ && "string"@ != "integer"@ && "string"@ != "boolean"@);
    assert("number"@ != "integer"@ && "number"@ != "boolean"@ && "integer"@ != "boolean"@);
    assert("string"@ != "null"@ && "number"@ != "null"@ && "integer"@ != "null"@ && "boolean"@ != "null"@);
    assert(!is_nullable(sch) <==> t@ != "null"@);
}

// ---- The shapes that conversion gives ----------------------------------------------

/// A representation without its outer `Nullable`.
pub open spec fn strip_nullable(r: TypeReprV) -> TypeReprV {
    match r {
        TypeReprV::Nullable(b) => *b,
        _ => r,
    }
}

proof fn lemma_conv_list(v: Vec<SchemaOrRef>, i: int, spec: OpenApiSpec, stk: Set<Seq<char>>)
    requires
        0 <= i <= v@.len(),
    ensures
        conv_list(v, i, spec, stk).len() == v@.len() - i,
        forall|k: int|
            0 <= k < v@.len() - i ==> #[trigger] conv_list(v, i, spec, stk)[k] == conv_sor(
                v@[i + k],
                spec,
                stk,
            ),
    decreases v@.len() - i,
{
    if i < v@.len() {
        lemma_conv_list(v, i + 1, spec, stk);
        let rest = conv_list(v, i + 1, spec, stk);
        assert forall|k: int| 0 <= k < v@.len() - i implies #[trigger] conv_list(v, i, spec, stk)[k]
            == conv_sor(v@[i + k], spec, stk) by {
            if k > 0 {
                assert((seq![conv_sor(v@[i], spec, stk)] + rest)[k] == rest[k - 1]);
            }
        }
    }
}

/// `oneOf` and `anyOf` give a union: one variant per alternative, in order,
/// each the conversion of that alternative; the discriminator's property
/// name for `oneOf` and none for `anyOf`. The union is wrapped as nullable
/// exactly when the schema admits null.
pub proof fn law_choice_is_union(sch: Schema, spec: OpenApiSpec, stk: Set<Seq<char>>)
    requires
        sch.all_of is None,
        sch.one_of is Some || sch.any_of is Some,
    ensures
        ({
            let r = conv_schema(sch, spec, stk);
            let list = match sch.one_of {
                Some(v) => v,
                None => sch.any_of->Some_0,
            };
            &&& (r is Nullable <==> is_nullable(sch))
            &&& strip_nullable(r) matches TypeReprV::Union { variants, discriminator }
            &&& variants.len() == list@.len()
            &&& forall|k: int| 0 <= k < list@.len() ==> #[trigger] variants[k] == conv_sor(list@[k], spec, stk)
            &&& discriminator == match sch.one_of {
                Some(_) => match sch.discriminator {
                    Some(d) => Some(d.property_name@),
                    None => None,
                },
                None => None,
            }
        }),
{
    let list = match sch.one_of {
        Some(v) => v,
        None => sch.any_of->Some_0,
    };
    lemma_conv_list(list, 0, spec, stk);
    assert forall|k: int| 0 <= k < list@.len() implies #[trigger] conv_list(list, 0, spec, stk)[k] == conv_sor(
        list@[k],
        spec,
        stk,
    ) by {
        assert(list@[0 + k] == list@[k]);
    }
}

/// A non-empty `enum` (with no `allOf`, `oneOf` or `anyOf`) gives an enum of
/// its string and integer values, wrapped as nullable exactly when the
/// schema admits null.
pub proof fn law_enum_is_enum(sch: Schema, spec: OpenApiSpec, stk: Set<Seq<char>>)
    requires
        sch.all_of is None,
        sch.one_of is None,
        sch.any_of is None,
        sch.enum_values@.len() > 0,
    ensures
        conv_schema(sch, spec, stk) is Nullable <==> is_nullable(sch),
        strip_nullable(conv_schema(sch, spec, stk)) is Enum,
{
}

/// An array schema gives a tuple of its `prefixItems` (one per item, in
/// order), else an array of its `items`, else an array of anything.
pub proof fn law_array_types(sch: Schema, spec: OpenApiSpec, stk: Set<Seq<char>>, t: String)
    requires
        sch.schema_type == Some(SchemaType::Single(t)),
        t@ == "array"@,
    ensures
        sch.prefix_items matches Some(v) ==> (conv_by_type(sch, spec, stk) matches TypeReprV::Tuple { items }
            && items.len() == v@.len() && (forall|k: int|
            0 <= k < v@.len() ==> #[trigger] items[k] == conv_sor(v@[k], spec, stk))),
        sch.items matches Some(it) ==> (sch.prefix_items is None ==> conv_by_type(sch, spec, stk)
            == (TypeReprV::Array { items: Box::new(conv_sor(*it, spec, stk)) })),
        sch.prefix_items is None && sch.items is None ==> conv_by_type(sch, spec, stk)
            == (TypeReprV::Array { items: Box::new(TypeReprV::Any) }),
{
    reveal_strlit("string");
    reveal_strlit("number");
    reveal_strlit("integer");
    reveal_strlit("boolean");
    reveal_strlit("array");
    assert("array"@[0] == 'a' && "string"@[0] == 's' && "number"@[0] == 'n' && "integer"@[0] == 'i'
        && "boolean"@[0] == 'b');
    match sch.prefix_items {
        Some(v) => {
            lemma_conv_list(v, 0, spec, stk);
            assert forall|k: int| 0 <= k < v@.len() implies #[trigger] conv_list(v, 0, spec, stk)[k] == conv_sor(
                v@[k],
                spec,
                stk,
            ) by {
                assert(v@[0 + k] == v@[k]);
            }
        },
        None => {},
    }
}

/// An object schema (or one without a type) with no properties and a
/// schema for `additionalProperties` gives a record of that schema; with
/// `additionalProperties: true`, a record of anything.
pub proof fn law_record_types(sch: Schema, spec: OpenApiSpec, stk: Set<Seq<char>>)
    requires
        sch.schema_type is None,
        sch.properties@.len() == 0,
    ensures
        sch.additional_properties matches Some(AdditionalProperties::Schema(b)) ==> conv_by_type(sch, spec, stk)
            == (TypeReprV::Record { value: Box::new(conv_sor(*b, spec, stk)) }),
        sch.additional_properties == Some(AdditionalProperties::Bool(true)) ==> conv_by_type(sch, spec, stk)
            == (TypeReprV::Record { value: Box::new(TypeReprV::Any) }),
        sch.additional_properties is None ==> conv_by_type(sch, spec, stk) == TypeReprV::Any,
{
}

proof fn lemma_last_index_suffix(a: Seq<char>, n: Seq<char>)
    requires
        !n.contains('/'),
    ensures
        last_index_of(a + n, '/') == last_index_of(a, '/'),
    decreases n.len(),
{
    if n.len() > 0 {
        let m = n.drop_last();
        assert(!m.contains('/')) by {
            if m.contains('/') {
                let k = choose|k: int| 0 <= k < m.len() && m[k] == '/';
                assert(n[k] == '/');
            }
        }
        assert(n[n.len() - 1] != '/');
        assert((a + n).drop_last() =~= a + m);
        lemma_last_index_suffix(a, m);
    } else {
        assert(a + n =~= a);
    }
}

/// A `$ref` converts to a reference to the name after its last `/` (the
/// whole path when it has none).
pub proof fn law_ref_names_last_segment(p: String, a: Seq<char>, n: Seq<char>, spec: OpenApiSpec, stk: Set<Seq<char>>)
    requires
        !n.contains('/'),
    ensures
        p@ == a + seq!['/'] + n ==> conv_sor((SchemaOrRef::Ref { ref_path: p }), spec, stk)
            == (TypeReprV::Ref { name: n }),
        !p@.contains('/') ==> conv_sor((SchemaOrRef::Ref { ref_path: p }), spec, stk)
            == (TypeReprV::Ref { name: p@ }),
{
    let b = a + seq!['/'];
    lemma_last_index_suffix(b, n);
    assert(b.drop_last() =~= a);
    assert(last_index_of(b, '/') == a.len());
    if p@ == b + n {
        assert((b + n).skip(a.len() + 1int) =~= n);
    }
    if !p@.contains('/') {
        lemma_last_index_suffix(Seq::<char>::empty(), p@);
        assert(Seq::<char>::empty() + p@ =~= p@);
        assert(p@.skip(0) =~= p@);
    }
}

/// A parameter's `in` gives its location: `path`, `header` and `cookie`
/// give those locations, anything else a query parameter.
pub proof fn law_parameter_locations(l: Seq<char>)
    ensures
        location_of(l) == ParamLocation::Path <==> l == "path"@,
        location_of(l) == ParamLocation::Header <==> l == "header"@,
        location_of(l) == ParamLocation::Cookie <==> l == "cookie"@,
        location_of(l) == ParamLocation::Query <==> (l != "path"@ && l != "header"@ && l != "cookie"@),
{
    reveal_strlit("path");
    reveal_strlit("query");
    reveal_strlit("header");
    reveal_strlit("cookie");
    assert("path"@[0] == 'p' && "query"@[0] == 'q' && "header"@[0] == 'h' && "cookie"@[0] == 'c');
}

/// An operation without an id gets `<Method>_<path>`, the method as `Get`,
/// `Post`, `Put`, `Patch` or `Delete` and every `/` of the path turned into
/// `_`: no `/` is left, and every other character stays where it was.
pub proof fn law_default_operation_id(m: HttpMethod, path: Seq<char>)
    ensures
        ({
            let id = default_operation_id(m, path);
            let name = match m {
                HttpMethod::Get => "Get"@,
                HttpMethod::Post => "Post"@,
                HttpMethod::Put => "Put"@,
                HttpMethod::Patch => "Patch"@,
                HttpMethod::Delete => "Delete"@,
            };
            &&& id.len() == name.len() + 1 + path.len()
            &&& id.take(name.len() as int) == name
            &&& id[name.len() as int] == '_'
            &&& forall|i: int| 0 <= i < path.len() ==> #[trigger] id[name.len() + 1 + i] == if path[i] == '/' {
                '_'
            } else {
                path[i]
            }
        }),
{
    reveal_strlit("_");
    let name = method_debug(m);
    let id = default_operation_id(m, path);
    assert(id.take(name.len() as int) =~= name);
    assert forall|i: int| 0 <= i < path.len() implies #[trigger] id[name.len() + 1 + i] == if path[i] == '/' {
        '_'
    } else {
        path[i]
    } by {
        assert(id[name.len() + 1 + i] == replace_char(path, '/', '_')[i]);
    }
}

proof fn lemma_first_status(rs: Seq<(String, ResponseOrRef)>, i: int, error: bool)
    requires
        0 <= i <= rs.len(),
    ensures
        i <= first_status(rs, i, error) <= rs.len(),
        first_status(rs, i, error) < rs.len() ==> status_matches(rs[first_status(rs, i, error)].0@, error),
        forall|j: int| i <= j < first_status(rs, i, error) ==> !status_matches(#[trigger] rs[j].0@, error),
    decreases rs.len() - i,
{
    if i < rs.len() && !status_matches(rs[i].0@, error) {
        lemma_first_status(rs, i + 1, error);
    }
}

/// The success response is the first response, in document order, whose
/// code is a success code (three characters, the first `2`), and the error
/// response the first whose code is an error code (the first `4` or `5`);
/// there is none when no code is such.
pub proof fn law_first_success_and_error(rs: Seq<(String, ResponseOrRef)>, spec: OpenApiSpec)
    ensures
        ({
            let k = first_status(rs, 0, false);
            &&& forall|j: int| 0 <= j < k ==> !(#[trigger] rs[j].0@.len() == 3 && rs[j].0@[0] == '2')
            &&& k < rs.len() ==> rs[k].0@.len() == 3 && rs[k].0@[0] == '2' && pick_response(rs, spec, false)
                == resolve_response(rs[k].1, spec)
            &&& k >= rs.len() ==> pick_response(rs, spec, false) is None
        }),
        ({
            let k = first_status(rs, 0, true);
            &&& forall|j: int|
                0 <= j < k ==> !(#[trigger] rs[j].0@.len() == 3 && (rs[j].0@[0] == '4' || rs[j].0@[0] == '5'))
            &&& k < rs.len() ==> rs[k].0@.len() == 3 && (rs[k].0@[0] == '4' || rs[k].0@[0] == '5')
                && pick_response(rs, spec, true) == resolve_response(rs[k].1, spec)
            &&& k >= rs.len() ==> pick_response(rs, spec, true) is None
        }),
{
    lemma_first_status(rs, 0, false);
    lemma_first_status(rs, 0, true);
}

/// A request body is sent as JSON when it has a JSON entry, else as form
/// data, plain text or a byte stream, in that order of preference, with the
/// schema of the entry chosen; without any of these it is not typed.
pub proof fn law_request_media_preference(content: Seq<(String, MediaType)>)
    ensures
        openapi::lookup(content, "application/json"@) matches Some(m) ==> body_media(content) == (
            ContentType::Json,
            m.schema,
        ),
        openapi::lookup(content, "multipart/form-data"@) matches Some(m) ==> (openapi::lookup(
            content,
            "application/json"@,
        ) is None ==> body_media(content) == (ContentType::FormData, m.schema)),
        body_media(content).0 == ContentType::Empty <==> (openapi::lookup(content, "application/json"@) is None
            && openapi::lookup(content, "multipart/form-data"@) is None && openapi::lookup(
            content,
            "text/plain"@,
        ) is None && openapi::lookup(content, "application/octet-stream"@) is None),
{
}

/// How the success response is read: JSON when it has a JSON body, text for
/// a `text/` body, a blob for any other body, nothing when it has no body.
pub proof fn law_response_kinds(r: Response)
    ensures
        (r.content is None || r.content->Some_0@.len() == 0) ==> response_kind(Some(r)) == ResponseType::Void,
        r.content matches Some(c) && openapi::lookup(c@, "application/json"@) is Some ==> response_kind(Some(r))
            == ResponseType::Json,
        r.content matches Some(c) && c@.len() > 0 && openapi::lookup(c@, "application/json"@) is None
            && !has_text_media(c@, 0) ==> response_kind(Some(r)) == ResponseType::Blob,
        response_kind(None) == ResponseType::Void,
{
    match r.content {
        Some(c) => {
            if openapi::lookup(c@, "application/json"@) is Some && c@.len() == 0 {
                assert(openapi::lookup(c@, "application/json"@) is None);
            }
        },
        None => {},
    }
}

proof fn lemma_key_pos_found<V>(m: Seq<(Seq<char>, V)>, k: Seq<char>)
    ensures
        0 <= key_pos(m, k) <= m.len(),
        key_pos(m, k) < m.len() ==> m[key_pos(m, k)].0 == k,
    decreases m.len(),
{
    if m.len() > 0 && m[0].0 != k {
        lemma_key_pos_found(m.drop_first(), k);
    }
}

proof fn lemma_map_insert_shape<V>(m: Seq<(Seq<char>, V)>, k: Seq<char>, v: V)
    ensures
        map_insert(m, k, v).len() >= m.len(),
        forall|j: int| 0 <= j < m.len() ==> (#[trigger] map_insert(m, k, v)[j]).0 == m[j].0,
        forall|j: int|
            0 <= j < map_insert(m, k, v).len() ==> #[trigger] map_insert(m, k, v)[j] == m[j]
                || map_insert(m, k, v)[j] == (k, v),
        exists|j: int| 0 <= j < map_insert(m, k, v).len() && #[trigger] map_insert(m, k, v)[j] == (k, v),
{
    lemma_key_pos_found(m, k);
    let i = key_pos(m, k);
    let m2 = map_insert(m, k, v);
    if 0 <= i < m.len() {
        assert(m2[i] == (k, v));
    } else {
        assert(m2[m.len() as int] == (k, v));
    }
}

/// Every property name of `props` from index `i` on is a key of `ps`.
pub open spec fn names_covered(ps: Seq<(Seq<char>, PropertyV)>, props: Seq<(String, SchemaOrRef)>, i: int) -> bool {
    forall|q: int|
        #![trigger props[q]]
        i <= q < props.len() ==> exists|l: int| #![trigger ps[l]] 0 <= l < ps.len() && ps[l].0 == props[q].0@
}

/// Each property of `acc` is marked required exactly when `req` lists its
/// key, and is named by its key.
pub open spec fn required_as_listed(acc: Seq<(Seq<char>, PropertyV)>, req: Seq<Seq<char>>) -> bool {
    forall|j: int|
        0 <= j < acc.len() ==> ((#[trigger] acc[j]).1.required <==> req.contains(acc[j].0)) && acc[j].1.name
            == acc[j].0
}

proof fn lemma_conv_object(
    props: Vec<(String, SchemaOrRef)>,
    i: int,
    req: Seq<Seq<char>>,
    spec: OpenApiSpec,
    stk: Set<Seq<char>>,
    acc: Seq<(Seq<char>, PropertyV)>,
)
    requires
        0 <= i,
        required_as_listed(acc, req),
    ensures
        required_as_listed(conv_object(props, i, req, spec, stk, acc), req),
        conv_object(props, i, req, spec, stk, acc).len() >= acc.len(),
        forall|j: int| 0 <= j < acc.len() ==> (#[trigger] conv_object(props, i, req, spec, stk, acc)[j]).0 == acc[j].0,
        names_covered(conv_object(props, i, req, spec, stk, acc), props@, i),
    decreases props@.len() - i,
{
    if i < props@.len() {
        let k = props@[i].0@;
        let rr = conv_sor(props@[i].1, spec, stk);
        let p = new_property(k, req.contains(k), rr, props@[i].1);
        let acc2 = map_insert(acc, k, p);
        lemma_map_insert_shape(acc, k, p);
        assert(required_as_listed(acc2, req)) by {
            assert forall|j: int| 0 <= j < acc2.len() implies ((#[trigger] acc2[j]).1.required <==> req.contains(
                acc2[j].0,
            )) && acc2[j].1.name == acc2[j].0 by {
                if acc2[j] != (k, p) {
                    assert(acc2[j] == acc[j]);
                }
            }
        }
        lemma_conv_object(props, i + 1, req, spec, stk, acc2);
        let r = conv_object(props, i, req, spec, stk, acc);
        assert(r == conv_object(props, i + 1, req, spec, stk, acc2));
        let l0 = choose|l: int| 0 <= l < acc2.len() && #[trigger] acc2[l] == (k, p);
        assert(r[l0].0 == k);
        assert forall|q: int| #![trigger props@[q]] i <= q < props@.len() implies exists|l: int|
            #![trigger r[l]] 0 <= l < r.len() && r[l].0 == props@[q].0@ by {
            if q == i {
                assert(r[l0].0 == props@[q].0@);
            }
        }
    }
}

/// An object schema (of type `object`, or without a type) with properties
/// gives an object with a property for each property name of the schema,
/// each named by its key and required exactly when the schema's `required`
/// list names it.
pub proof fn law_object_properties(sch: Schema, spec: OpenApiSpec, stk: Set<Seq<char>>)
    requires
        sch.properties@.len() > 0,
        sch.schema_type is None || (sch.schema_type matches Some(SchemaType::Single(t)) && t@ == "object"@),
    ensures
        conv_by_type(sch, spec, stk) is Object,
        required_as_listed(conv_by_type(sch, spec, stk)->properties, ir::strings_view(sch.required@)),
        names_covered(conv_by_type(sch, spec, stk)->properties, sch.properties@, 0),
{
    reveal_strlit("string");
    reveal_strlit("number");
    reveal_strlit("integer");
    reveal_strlit("boolean");
    reveal_strlit("array");
    reveal_strlit("object");
    assert("object"@[0] == 'o' && "array"@[0] == 'a' && "string"@[0] == 's' && "number"@[0] == 'n'
        && "integer"@[0] == 'i' && "boolean"@[0] == 'b');
    let e: Seq<(Seq<char>, PropertyV)> = seq![];
    lemma_conv_object(sch.properties, 0, ir::strings_view(sch.required@), spec, stk, e);
}

} // verus!
