//! The intermediate representation of an API that the emitters read, and
//! the shared helpers over it (HTTP method names, path templates, type
//! imports).
use vstd::prelude::*;

use crate::text;
use crate::value::{Value, ValueV};

verus! {

/// The top-level intermediate representation of an API.
#[derive(Debug)]
pub struct ApiSpec {
    /// Named type definitions, in document order.
    pub types: Vec<(String, TypeDef)>,
    pub endpoints: Vec<Endpoint>,
}

/// A named type definition (from components/schemas).
#[derive(Debug)]
pub struct TypeDef {
    pub name: String,
    pub description: Option<String>,
    pub default_value: Option<Value>,
    pub format: Option<String>,
    pub repr: TypeRepr,
    pub constraints: Constraints,
}

/// Validation constraints from JSON Schema. The numeric bounds that may be
/// fractional are kept as their decimal text.
#[derive(Debug)]
pub struct Constraints {
    pub min_length: Option<u64>,
    pub max_length: Option<u64>,
    pub pattern: Option<String>,
    pub minimum: Option<String>,
    pub maximum: Option<String>,
    pub exclusive_minimum: Option<String>,
    pub exclusive_maximum: Option<String>,
    pub multiple_of: Option<String>,
    pub min_items: Option<u64>,
    pub max_items: Option<u64>,
}

/// The representation of a type.
#[derive(Debug)]
pub enum TypeRepr {
    /// string, number, integer, boolean
    Primitive(PrimitiveType),
    /// { properties, required }
    Object { properties: Vec<(String, Property)> },
    /// T[]
    Array { items: Box<TypeRepr> },
    /// A | B (oneOf / anyOf)
    Union { variants: Vec<TypeRepr>, discriminator: Option<String> },
    /// Reference to a named type (may be circular)
    Ref { name: String },
    /// Enum with string or number values
    Enum { values: Vec<EnumValue> },
    /// T | null
    Nullable(Box<TypeRepr>),
    /// Record<string, T> (additionalProperties)
    Record { value: Box<TypeRepr> },
    /// [A, B, C]: tuple type (OpenAPI 3.1 prefixItems)
    Tuple { items: Vec<TypeRepr> },
    /// A & B (allOf that can't be flattened, e.g. base + oneOf)
    Intersection { members: Vec<TypeRepr> },
    /// any / unknown
    Any,
}

#[derive(Debug)]
pub struct Property {
    pub name: String,
    pub required: bool,
    pub read_only: bool,
    pub description: Option<String>,
    pub default_value: Option<Value>,
    pub repr: TypeRepr,
    pub constraints: Constraints,
}

#[derive(Debug, Clone, Copy, PartialEq, Eq, Structural)]
pub enum PrimitiveType {
    String,
    Number,
    Integer,
    Boolean,
}

#[derive(Debug)]
pub enum EnumValue {
    String(String),
    Integer(i64),
}

#[derive(Debug)]
pub struct Endpoint {
    pub path: String,
    pub method: HttpMethod,
    pub operation_id: String,
    pub summary: Option<String>,
    pub tags: Vec<String>,
    pub parameters: Vec<EndpointParam>,
    pub request_body: Option<TypeRepr>,
    pub request_content_type: ContentType,
    pub response: Option<TypeRepr>,
    pub response_type: ResponseType,
    pub error_response: Option<TypeRepr>,
}

/// Content type of the request body.
#[derive(Debug, Clone, Copy, PartialEq, Eq, Structural)]
pub enum ContentType {
    Json,
    FormData,
    TextPlain,
    OctetStream,
    Empty,
}

/// How the response should be parsed.
#[derive(Debug, Clone, Copy, PartialEq, Eq, Structural)]
pub enum ResponseType {
    /// application/json: response.json()
    Json,
    /// text/plain, text/html: response.text()
    Text,
    /// application/octet-stream, image/*, etc.: response.blob()
    Blob,
    /// 204 No Content: void (no body parsing)
    Void,
}

#[derive(Debug)]
pub struct EndpointParam {
    pub name: String,
    pub location: ParamLocation,
    pub required: bool,
    pub repr: TypeRepr,
    pub array_style: Option<ArrayStyle>,
}

/// How array query parameters are serialized.
#[derive(Debug, Clone, Copy, PartialEq, Eq, Structural)]
pub enum ArrayStyle {
    /// `?tags=a,b,c` (style: form, explode: false)
    Comma,
    /// `?tags=a&tags=b&tags=c` (style: form, explode: true, the OpenAPI default)
    Multi,
    /// `?tags[]=a&tags[]=b&tags[]=c` (non-standard but common)
    Brackets,
}

#[derive(Debug, Clone, Copy, PartialEq, Eq, Structural)]
pub enum HttpMethod {
    Get,
    Post,
    Put,
    Patch,
    Delete,
}

#[derive(Debug, Clone, Copy, PartialEq, Eq, Structural)]
pub enum ParamLocation {
    Path,
    Query,
    Header,
    Cookie,
}

// ---- Mathematical views ----------------------------------------------------

/// The characters of an optional string.
pub open spec fn opt_chars(o: Option<String>) -> Option<Seq<char>> {
    match o {
        Some(s) => Some(s@),
        None => None,
    }
}

/// The view of an optional value.
pub open spec fn opt_value(o: Option<Value>) -> Option<ValueV> {
    match o {
        Some(v) => Some(v@),
        None => None,
    }
}

pub struct ConstraintsV {
    pub min_length: Option<u64>,
    pub max_length: Option<u64>,
    pub pattern: Option<Seq<char>>,
    pub minimum: Option<Seq<char>>,
    pub maximum: Option<Seq<char>>,
    pub exclusive_minimum: Option<Seq<char>>,
    pub exclusive_maximum: Option<Seq<char>>,
    pub multiple_of: Option<Seq<char>>,
    pub min_items: Option<u64>,
    pub max_items: Option<u64>,
}

impl View for Constraints {
    type V = ConstraintsV;

    open spec fn view(&self) -> ConstraintsV {
        ConstraintsV {
            min_length: self.min_length,
            max_length: self.max_length,
            pattern: opt_chars(self.pattern),
            minimum: opt_chars(self.minimum),
            maximum: opt_chars(self.maximum),
            exclusive_minimum: opt_chars(self.exclusive_minimum),
            exclusive_maximum: opt_chars(self.exclusive_maximum),
            multiple_of: opt_chars(self.multiple_of),
            min_items: self.min_items,
            max_items: self.max_items,
        }
    }
}

/// Constraints that constrain nothing.
pub open spec fn no_constraints() -> ConstraintsV {
    ConstraintsV {
        min_length: None,
        max_length: None,
        pattern: None,
        minimum: None,
        maximum: None,
        exclusive_minimum: None,
        exclusive_maximum: None,
        multiple_of: None,
        min_items: None,
        max_items: None,
    }
}

pub enum EnumValueV {
    String(Seq<char>),
    Integer(i64),
}

impl View for EnumValue {
    type V = EnumValueV;

    open spec fn view(&self) -> EnumValueV {
        match self {
            EnumValue::String(s) => EnumValueV::String(s@),
            EnumValue::Integer(i) => EnumValueV::Integer(*i),
        }
    }
}

pub enum TypeReprV {
    Primitive(PrimitiveType),
    Object { properties: Seq<(Seq<char>, PropertyV)> },
    Array { items: Box<TypeReprV> },
    Union { variants: Seq<TypeReprV>, discriminator: Option<Seq<char>> },
    Ref { name: Seq<char> },
    Enum { values: Seq<EnumValueV> },
    Nullable(Box<TypeReprV>),
    Record { value: Box<TypeReprV> },
    Tuple { items: Seq<TypeReprV> },
    Intersection { members: Seq<TypeReprV> },
    Any,
}

pub struct PropertyV {
    pub name: Seq<char>,
    pub required: bool,
    pub read_only: bool,
    pub description: Option<Seq<char>>,
    pub default_value: Option<ValueV>,
    pub repr: TypeReprV,
    pub constraints: ConstraintsV,
}

/// A placeholder property.
pub open spec fn blank_property() -> PropertyV {
    PropertyV {
        name: Seq::empty(),
        required: false,
        read_only: false,
        description: None,
        default_value: None,
        repr: TypeReprV::Any,
        constraints: no_constraints(),
    }
}

/// The mathematical content of `t`.
pub open spec fn repr_view(t: TypeRepr) -> TypeReprV
    decreases t,
{
    match t {
        TypeRepr::Primitive(p) => TypeReprV::Primitive(p),
        TypeRepr::Object { properties } => TypeReprV::Object {
            properties: Seq::new(
                properties@.len(),
                |i: int|
                    if 0 <= i < properties@.len() {
                        (properties@[i].0@, property_view(properties@[i].1))
                    } else {
                        (Seq::<char>::empty(), blank_property())
                    },
            ),
        },
        TypeRepr::Array { items } => TypeReprV::Array { items: Box::new(repr_view(*items)) },
        TypeRepr::Union { variants, discriminator } => TypeReprV::Union {
            variants: Seq::new(
                variants@.len(),
                |i: int|
                    if 0 <= i < variants@.len() {
                        repr_view(variants@[i])
                    } else {
                        TypeReprV::Any
                    },
            ),
            discriminator: opt_chars(discriminator),
        },
        TypeRepr::Ref { name } => TypeReprV::Ref { name: name@ },
        TypeRepr::Enum { values } => TypeReprV::Enum {
            values: values@.map_values(|e: EnumValue| e@),
        },
        TypeRepr::Nullable(inner) => TypeReprV::Nullable(Box::new(repr_view(*inner))),
        TypeRepr::Record { value } => TypeReprV::Record { value: Box::new(repr_view(*value)) },
        TypeRepr::Tuple { items } => TypeReprV::Tuple {
            items: Seq::new(
                items@.len(),
                |i: int|
                    if 0 <= i < items@.len() {
                        repr_view(items@[i])
                    } else {
                        TypeReprV::Any
                    },
            ),
        },
        TypeRepr::Intersection { members } => TypeReprV::Intersection {
            members: Seq::new(
                members@.len(),
                |i: int|
                    if 0 <= i < members@.len() {
                        repr_view(members@[i])
                    } else {
                        TypeReprV::Any
                    },
            ),
        },
        TypeRepr::Any => TypeReprV::Any,
    }
}

/// The mathematical content of `p`.
pub open spec fn property_view(p: Property) -> PropertyV
    decreases p,
{
    PropertyV {
        name: p.name@,
        required: p.required,
        read_only: p.read_only,
        description: opt_chars(p.description),
        default_value: opt_value(p.default_value),
        repr: repr_view(p.repr),
        constraints: p.constraints@,
    }
}

impl View for TypeRepr {
    type V = TypeReprV;

    open spec fn view(&self) -> TypeReprV {
        repr_view(*self)
    }
}

impl View for Property {
    type V = PropertyV;

    open spec fn view(&self) -> PropertyV {
        property_view(*self)
    }
}

// ---- HTTP methods ------------------------------------------------------------

/// The uppercase name of a method.
pub open spec fn method_upper(m: HttpMethod) -> Seq<char> {
    match m {
        HttpMethod::Get => "GET"@,
        HttpMethod::Post => "POST"@,
        HttpMethod::Put => "PUT"@,
        HttpMethod::Patch => "PATCH"@,
        HttpMethod::Delete => "DELETE"@,
    }
}

/// The lowercase name of a method.
pub open spec fn method_lower(m: HttpMethod) -> Seq<char> {
    match m {
        HttpMethod::Get => "get"@,
        HttpMethod::Post => "post"@,
        HttpMethod::Put => "put"@,
        HttpMethod::Patch => "patch"@,
        HttpMethod::Delete => "delete"@,
    }
}

impl HttpMethod {
    /// Uppercase string (e.g. "GET", "POST").
    pub fn as_upper(&self) -> (r: &'static str)
        ensures
            r@ == method_upper(*self),
    {
        match self {
            HttpMethod::Get => "GET",
            HttpMethod::Post => "POST",
            HttpMethod::Put => "PUT",
            HttpMethod::Patch => "PATCH",
            HttpMethod::Delete => "DELETE",
        }
    }

    /// Lowercase string (e.g. "get", "post").
    pub fn as_lower(&self) -> (r: &'static str)
        ensures
            r@ == method_lower(*self),
    {
        match self {
            HttpMethod::Get => "get",
            HttpMethod::Post => "post",
            HttpMethod::Put => "put",
            HttpMethod::Patch => "patch",
            HttpMethod::Delete => "delete",
        }
    }
}

// ---- Shared path utilities -----------------------------------------------------

/// `path` with each `{name}` written as `${pathParams.name}`; an unclosed
/// `{` takes the rest of the path as the name.
pub open spec fn spec_template_literal(path: Seq<char>) -> Seq<char>
    decreases path.len(),
{
    if path.len() == 0 {
        seq![]
    } else if path[0] == '{' {
        let k = text::find_char(path, 1, '}');
        let rest = if k < path.len() {
            path.skip(k + 1)
        } else {
            Seq::<char>::empty()
        };
        proof {
            text::lemma_find_char(path, 1, '}');
        }
        "${pathParams."@ + path.subrange(1, k) + "}"@ + spec_template_literal(rest)
    } else {
        seq![path[0]] + spec_template_literal(path.drop_first())
    }
}

/// `path` with each `{` written as `:` and each `}` dropped.
pub open spec fn spec_colon_params(path: Seq<char>) -> Seq<char>
    decreases path.len(),
{
    if path.len() == 0 {
        seq![]
    } else {
        let head = if path[0] == '{' {
            seq![':']
        } else if path[0] == '}' {
            Seq::<char>::empty()
        } else {
            seq![path[0]]
        };
        head + spec_colon_params(path.drop_first())
    }
}

/// Convert `/pets/{petId}` to template literal `/pets/${pathParams.petId}`.
pub fn path_to_template_literal(path: &str) -> (r: String)
    ensures
        r@ == spec_template_literal(path@),
{
    let s = text::chars_of(path);
    let n = s.len();
    let mut out: Vec<char> = Vec::new();
    let mut i: usize = 0;
    assert(s@.skip(0) =~= s@);
    while i < n
        invariant
            n == s@.len(),
            0 <= i <= n,
            s@ == path@,
            out@ + spec_template_literal(s@.skip(i as int)) == spec_template_literal(path@),
        decreases n - i,
    {
        let ghost t = s@.skip(i as int);
        if s[i] == '{' {
            let mut j: usize = i + 1;
            while j < n && s[j] != '}'
                invariant
                    n == s@.len(),
                    i < j <= n,
                    t == s@.skip(i as int),
                    text::find_char(t, j - i, '}') == text::find_char(t, 1, '}'),
                decreases n - j,
            {
                assert(t[j - i] == s@[j as int]);
                j = j + 1;
            }
            proof {
                if j < n {
                    assert(t[j - i] == s@[j as int]);
                }
                assert(t.subrange(1, j - i) =~= s@.subrange(i + 1, j as int));
                if j < n {
                    assert(t.skip(j - i + 1) =~= s@.skip(j + 1));
                } else {
                    assert(s@.skip(n as int) =~= Seq::<char>::empty());
                }
            }
            let ghost before = out@;
            text::push_str(&mut out, "${pathParams.");
            let ghost base = out@;
            let mut k: usize = i + 1;
            while k < j
                invariant
                    i < k <= j <= n,
                    n == s@.len(),
                    out@ == base + s@.subrange(i + 1, k as int),
                decreases j - k,
            {
                out.push(s[k]);
                k = k + 1;
            }
            text::push_str(&mut out, "}");
            proof {
                assert(out@ =~= before + ("${pathParams."@ + t.subrange(1, j - i) + "}"@));
            }
            i = if j < n {
                j + 1
            } else {
                n
            };
        } else {
            proof {
                assert(t[0] == s@[i as int]);
                assert(t.drop_first() =~= s@.skip(i + 1));
            }
            out.push(s[i]);
            i = i + 1;
        }
    }
    assert(s@.skip(n as int) =~= Seq::<char>::empty());
    text::string_of(out.as_slice())
}

/// Convert `/pets/{petId}` to colon-param format `/pets/:petId` (MSW / Hono).
pub fn path_to_colon_params(path: &str) -> (r: String)
    ensures
        r@ == spec_colon_params(path@),
{
    let s = text::chars_of(path);
    let mut out: Vec<char> = Vec::new();
    let mut i: usize = 0;
    assert(s@.skip(0) =~= s@);
    while i < s.len()
        invariant
            0 <= i <= s@.len(),
            s@ == path@,
            out@ + spec_colon_params(s@.skip(i as int)) == spec_colon_params(path@),
        decreases s.len() - i,
    {
        let ghost t = s@.skip(i as int);
        assert(t[0] == s@[i as int]);
        assert(t.drop_first() =~= s@.skip(i + 1));
        let ghost before = out@;
        if s[i] == '{' {
            out.push(':');
        } else if s[i] == '}' {
        } else {
            out.push(s[i]);
        }
        assert(out@ + spec_colon_params(s@.skip(i + 1)) =~= before + spec_colon_params(t));
        i = i + 1;
    }
    assert(s@.skip(s@.len() as int) =~= Seq::<char>::empty());
    text::string_of(out.as_slice())
}

// ---- Endpoint helpers ------------------------------------------------------

/// Some parameter of `params` sits at `loc`.
pub open spec fn has_location(params: Seq<EndpointParam>, loc: ParamLocation) -> bool {
    exists|i: int| 0 <= i < params.len() && (#[trigger] params[i]).location == loc
}

/// The TypeScript return type of an endpoint.
pub open spec fn spec_return_type(e: Endpoint) -> Seq<char> {
    if e.response_type == ResponseType::Json && e.response is Some {
        e.operation_id@ + "Response"@
    } else if e.response_type == ResponseType::Text {
        "string"@
    } else if e.response_type == ResponseType::Blob {
        "Blob"@
    } else {
        "void"@
    }
}

impl Endpoint {
    /// Whether the endpoint has any params at the given location.
    pub fn has_params(&self, location: &ParamLocation) -> (r: bool)
        ensures
            r == has_location(self.parameters@, *location),
    {
        let mut i: usize = 0;
        while i < self.parameters.len()
            invariant
                0 <= i <= self.parameters@.len(),
                forall|k: int| 0 <= k < i ==> (#[trigger] self.parameters@[k]).location != *location,
            decreases self.parameters.len() - i,
        {
            if self.parameters[i].location == *location {
                return true;
            }
            i = i + 1;
        }
        false
    }

    /// TypeScript return type string for this endpoint.
    pub fn return_type_ts(&self) -> (r: String)
        ensures
            r@ == spec_return_type(*self),
    {
        match self.response_type {
            ResponseType::Json if self.response.is_some() => {
                text::concat(self.operation_id.as_str(), "Response")
            },
            ResponseType::Text => text::owned("string"),
            ResponseType::Blob => text::owned("Blob"),
            _ => text::owned("void"),
        }
    }
}

/// `seq![x]` when `cond` holds, else nothing.
pub open spec fn when(cond: bool, x: Seq<char>) -> Seq<Seq<char>> {
    if cond {
        seq![x]
    } else {
        seq![]
    }
}

/// The type names that one endpoint contributes to the imports, in order:
/// its path, query, header and cookie parameter types, its response type
/// (JSON responses only), its body type and its error type.
pub open spec fn endpoint_imports(e: Endpoint) -> Seq<Seq<char>> {
    let id = e.operation_id@;
    let ps = e.parameters@;
    when(has_location(ps, ParamLocation::Path), id + "PathParams"@) + when(
        has_location(ps, ParamLocation::Query),
        id + "QueryParams"@,
    ) + when(has_location(ps, ParamLocation::Header), id + "HeaderParams"@) + when(
        has_location(ps, ParamLocation::Cookie),
        id + "CookieParams"@,
    ) + when(e.response is Some && e.response_type == ResponseType::Json, id + "Response"@)
        + when(e.request_body is Some, id + "Body"@) + when(
        e.error_response is Some,
        id + "Error"@,
    )
}

/// The type names of all the endpoints, endpoint by endpoint.
pub open spec fn all_imports(eps: Seq<Endpoint>) -> Seq<Seq<char>>
    decreases eps.len(),
{
    if eps.len() == 0 {
        seq![]
    } else {
        all_imports(eps.drop_last()) + endpoint_imports(eps.last())
    }
}

/// The characters of a list of strings.
pub open spec fn strings_view(v: Seq<String>) -> Seq<Seq<char>> {
    v.map_values(|s: String| s@)
}

/// Appends `id` followed by `suffix` to `out` when `cond` holds.
fn push_import(out: &mut Vec<String>, cond: bool, id: &String, suffix: &str)
    ensures
        strings_view(final(out)@) == strings_view(old(out)@) + when(cond, id@ + suffix@),
{
    if cond {
        let s = text::concat(id.as_str(), suffix);
        let ghost before = strings_view(out@);
        out.push(s);
        assert(strings_view(out@) =~= before + seq![s@]);
    } else {
        assert(strings_view(out@) =~= strings_view(out@) + when(cond, id@ + suffix@));
    }
}

/// Appends the type names that `e` contributes to the imports.
#[verifier::spinoff_prover]
#[verifier::rlimit(40)]
fn push_endpoint_imports(imports: &mut Vec<String>, e: &Endpoint)
    ensures
        strings_view(final(imports)@) == strings_view(old(imports)@) + endpoint_imports(*e),
{
    let id = &e.operation_id;
    let ghost s0 = strings_view(imports@);
    let c1 = e.has_params(&ParamLocation::Path);
    let c2 = e.has_params(&ParamLocation::Query);
    let c3 = e.has_params(&ParamLocation::Header);
    let c4 = e.has_params(&ParamLocation::Cookie);
    let c5 = e.response.is_some() && e.response_type == ResponseType::Json;
    let c6 = e.request_body.is_some();
    let c7 = e.error_response.is_some();
    let ghost w1 = when(c1, id@ + "PathParams"@);
    let ghost w2 = when(c2, id@ + "QueryParams"@);
    let ghost w3 = when(c3, id@ + "HeaderParams"@);
    let ghost w4 = when(c4, id@ + "CookieParams"@);
    let ghost w5 = when(c5, id@ + "Response"@);
    let ghost w6 = when(c6, id@ + "Body"@);
    let ghost w7 = when(c7, id@ + "Error"@);
    assert(endpoint_imports(*e) == w1 + w2 + w3 + w4 + w5 + w6 + w7);
    push_import(imports, c1, id, "PathParams");
    push_import(imports, c2, id, "QueryParams");
    proof {
        lemma_assoc(s0, w1, w2);
    }
    push_import(imports, c3, id, "HeaderParams");
    proof {
        lemma_assoc(s0, w1 + w2, w3);
    }
    push_import(imports, c4, id, "CookieParams");
    proof {
        lemma_assoc(s0, w1 + w2 + w3, w4);
    }
    push_import(imports, c5, id, "Response");
    proof {
        lemma_assoc(s0, w1 + w2 + w3 + w4, w5);
    }
    push_import(imports, c6, id, "Body");
    proof {
        lemma_assoc(s0, w1 + w2 + w3 + w4 + w5, w6);
    }
    push_import(imports, c7, id, "Error");
    proof {
        lemma_assoc(s0, w1 + w2 + w3 + w4 + w5 + w6, w7);
    }
}

proof fn lemma_assoc(a: Seq<Seq<char>>, b: Seq<Seq<char>>, c: Seq<Seq<char>>)
    ensures
        (a + b) + c == a + (b + c),
{
    assert((a + b) + c =~= a + (b + c));
}

/// Collect standard type import names from an API spec.
/// Returns names like `listPetsPathParams`, `listPetsResponse`, `listPetsBody`, etc.
pub fn collect_type_imports(api: &ApiSpec) -> (r: Vec<String>)
    ensures
        strings_view(r@) == all_imports(api.endpoints@),
{
    let mut imports: Vec<String> = Vec::new();
    let mut i: usize = 0;
    while i < api.endpoints.len()
        invariant
            0 <= i <= api.endpoints@.len(),
            strings_view(imports@) == all_imports(api.endpoints@.take(i as int)),
        decreases api.endpoints.len() - i,
    {
        let e = &api.endpoints[i];
        let ghost before = strings_view(imports@);
        push_endpoint_imports(&mut imports, e);
        proof {
            let eps = api.endpoints@.take(i + 1);
            assert(eps.drop_last() =~= api.endpoints@.take(i as int));
            assert(eps.last() == *e);
        }
        i = i + 1;
    }
    assert(api.endpoints@.take(api.endpoints@.len() as int) =~= api.endpoints@);
    imports
}

pub struct TypeDefV {
    pub name: Seq<char>,
    pub description: Option<Seq<char>>,
    pub default_value: Option<ValueV>,
    pub format: Option<Seq<char>>,
    pub repr: TypeReprV,
    pub constraints: ConstraintsV,
}

impl View for TypeDef {
    type V = TypeDefV;

    open spec fn view(&self) -> TypeDefV {
        TypeDefV {
            name: self.name@,
            description: opt_chars(self.description),
            default_value: opt_value(self.default_value),
            format: opt_chars(self.format),
            repr: self.repr@,
            constraints: self.constraints@,
        }
    }
}

pub struct EndpointParamV {
    pub name: Seq<char>,
    pub location: ParamLocation,
    pub required: bool,
    pub repr: TypeReprV,
    pub array_style: Option<ArrayStyle>,
}

impl View for EndpointParam {
    type V = EndpointParamV;

    open spec fn view(&self) -> EndpointParamV {
        EndpointParamV {
            name: self.name@,
            location: self.location,
            required: self.required,
            repr: self.repr@,
            array_style: self.array_style,
        }
    }
}

/// The view of an optional representation.
pub open spec fn opt_repr(o: Option<TypeRepr>) -> Option<TypeReprV> {
    match o {
        Some(t) => Some(t@),
        None => None,
    }
}

pub struct EndpointV {
    pub path: Seq<char>,
    pub method: HttpMethod,
    pub operation_id: Seq<char>,
    pub summary: Option<Seq<char>>,
    pub tags: Seq<Seq<char>>,
    pub parameters: Seq<EndpointParamV>,
    pub request_body: Option<TypeReprV>,
    pub request_content_type: ContentType,
    pub response: Option<TypeReprV>,
    pub response_type: ResponseType,
    pub error_response: Option<TypeReprV>,
}

impl View for Endpoint {
    type V = EndpointV;

    open spec fn view(&self) -> EndpointV {
        EndpointV {
            path: self.path@,
            method: self.method,
            operation_id: self.operation_id@,
            summary: opt_chars(self.summary),
            tags: strings_view(self.tags@),
            parameters: self.parameters@.map_values(|p: EndpointParam| p@),
            request_body: opt_repr(self.request_body),
            request_content_type: self.request_content_type,
            response: opt_repr(self.response),
            response_type: self.response_type,
            error_response: opt_repr(self.error_response),
        }
    }
}

pub struct ApiSpecV {
    pub types: Seq<(Seq<char>, TypeDefV)>,
    pub endpoints: Seq<EndpointV>,
}

impl View for ApiSpec {
    type V = ApiSpecV;

    open spec fn view(&self) -> ApiSpecV {
        ApiSpecV {
            types: self.types@.map_values(|e: (String, TypeDef)| (e.0@, e.1@)),
            endpoints: self.endpoints@.map_values(|e: Endpoint| e@),
        }
    }
}

} // verus!
