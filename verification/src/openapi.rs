//! The OpenAPI 3.0/3.1 document model that the parser fills. Maps keep
//! their entries in document order as lists of `(key, value)` pairs.
use vstd::prelude::*;

use crate::value::Value;

verus! {

/// Top-level OpenAPI 3.0/3.1 specification.
#[derive(Debug)]
pub struct OpenApiSpec {
    pub openapi: String,
    pub info: Info,
    pub paths: Vec<(String, PathItem)>,
    pub components: Option<Components>,
}

#[derive(Debug)]
pub struct Info {
    pub title: String,
    pub version: String,
    pub description: Option<String>,
}

#[derive(Debug)]
pub struct PathItem {
    pub get: Option<Operation>,
    pub post: Option<Operation>,
    pub put: Option<Operation>,
    pub patch: Option<Operation>,
    pub delete: Option<Operation>,
    pub parameters: Vec<ParameterOrRef>,
}

#[derive(Debug)]
pub struct Operation {
    pub operation_id: Option<String>,
    pub summary: Option<String>,
    pub tags: Vec<String>,
    pub parameters: Vec<ParameterOrRef>,
    pub request_body: Option<RequestBodyOrRef>,
    pub responses: Vec<(String, ResponseOrRef)>,
}

#[derive(Debug)]
pub struct Parameter {
    pub name: String,
    /// The `in` field: path, query, header or cookie.
    pub location: String,
    pub required: bool,
    pub schema: Option<SchemaOrRef>,
    pub description: Option<String>,
    pub style: Option<String>,
    pub explode: Option<bool>,
}

/// A parameter that can be inline or a $ref to components/parameters.
#[derive(Debug)]
pub enum ParameterOrRef {
    Ref { ref_path: String },
    Parameter(Parameter),
}

#[derive(Debug)]
pub struct RequestBody {
    pub required: bool,
    pub content: Vec<(String, MediaType)>,
    pub description: Option<String>,
}

/// A request body that can be inline or a $ref to components/requestBodies.
#[derive(Debug)]
pub enum RequestBodyOrRef {
    Ref { ref_path: String },
    RequestBody(RequestBody),
}

#[derive(Debug)]
pub struct Response {
    pub description: Option<String>,
    pub content: Option<Vec<(String, MediaType)>>,
}

/// A response that can be inline or a $ref to components/responses.
#[derive(Debug)]
pub enum ResponseOrRef {
    Ref { ref_path: String },
    Response(Response),
}

#[derive(Debug)]
pub struct MediaType {
    pub schema: Option<SchemaOrRef>,
}

/// A schema that can be either inline or a $ref.
#[derive(Debug)]
pub enum SchemaOrRef {
    Ref { ref_path: String },
    Schema(Box<Schema>),
}

/// OpenAPI 3.1 allows `type` to be either a string or an array of strings,
/// e.g. `type: "string"` (3.0) or `type: ["string", "null"]` (3.1).
#[derive(Debug)]
pub enum SchemaType {
    Single(String),
    Array(Vec<String>),
}

/// A JSON Schema. The numeric bounds that may be fractional are kept as
/// their decimal text.
#[derive(Debug)]
pub struct Schema {
    pub schema_type: Option<SchemaType>,
    pub format: Option<String>,
    pub properties: Vec<(String, SchemaOrRef)>,
    pub required: Vec<String>,
    pub items: Option<Box<SchemaOrRef>>,
    /// OpenAPI 3.1 tuple type: `prefixItems: [{type: string}, {type: number}]`
    pub prefix_items: Option<Vec<SchemaOrRef>>,
    pub enum_values: Vec<Value>,
    pub all_of: Option<Vec<SchemaOrRef>>,
    pub one_of: Option<Vec<SchemaOrRef>>,
    pub any_of: Option<Vec<SchemaOrRef>>,
    pub discriminator: Option<Discriminator>,
    pub additional_properties: Option<AdditionalProperties>,
    pub nullable: bool,
    pub read_only: bool,
    pub description: Option<String>,
    pub default: Option<Value>,
    pub min_length: Option<u64>,
    pub max_length: Option<u64>,
    pub pattern: Option<String>,
    pub minimum: Option<String>,
    pub maximum: Option<String>,
    pub exclusive_minimum: Option<String>,
    pub exclusive_maximum: Option<String>,
    pub multiple_of: Option<String>,
    pub min_items: Option<u64>,
    pub max_items: Option<u64>,
    /// OpenAPI 3.1: `$defs` for local schema definitions.
    pub defs: Option<Vec<(String, SchemaOrRef)>>,
}

/// `additionalProperties` can be a boolean or a schema.
#[derive(Debug)]
pub enum AdditionalProperties {
    Bool(bool),
    Schema(Box<SchemaOrRef>),
}

#[derive(Debug)]
pub struct Discriminator {
    pub property_name: String,
    pub mapping: Vec<(String, String)>,
}

#[derive(Debug)]
pub struct Components {
    pub schemas: Vec<(String, SchemaOrRef)>,
    pub parameters: Vec<(String, ParameterOrRef)>,
    pub request_bodies: Vec<(String, RequestBodyOrRef)>,
    pub responses: Vec<(String, ResponseOrRef)>,
}

// ---- Keyed lists -------------------------------------------------------------

/// The index of the first entry of `m` under `key` (or `m.len()`).
pub open spec fn entry_index<V>(m: Seq<(String, V)>, key: Seq<char>) -> int
    decreases m.len(),
{
    if m.len() == 0 {
        0
    } else if m[0].0@ == key {
        0
    } else {
        1 + entry_index(m.drop_first(), key)
    }
}

/// The value under `key` in `m` (the first one, as `IndexMap::get` finds the
/// only one).
pub open spec fn lookup<V>(m: Seq<(String, V)>, key: Seq<char>) -> Option<V>
    decreases m.len(),
{
    if m.len() == 0 {
        None
    } else if m[0].0@ == key {
        Some(m[0].1)
    } else {
        lookup(m.drop_first(), key)
    }
}

/// `entry_index` and `lookup` agree.
pub proof fn lemma_lookup_index<V>(m: Seq<(String, V)>, key: Seq<char>)
    ensures
        0 <= entry_index(m, key) <= m.len(),
        entry_index(m, key) < m.len() ==> m[entry_index(m, key)].0@ == key && lookup(m, key)
            == Some(m[entry_index(m, key)].1),
        entry_index(m, key) == m.len() ==> lookup(m, key) is None,
        forall|k: int| 0 <= k < entry_index(m, key) ==> (#[trigger] m[k]).0@ != key,
    decreases m.len(),
{
    if m.len() > 0 && m[0].0@ != key {
        lemma_lookup_index(m.drop_first(), key);
        assert forall|k: int| 0 <= k < entry_index(m, key) implies (#[trigger] m[k]).0@ != key by {
            if k > 0 {
                assert(m[k] == m.drop_first()[k - 1]);
            }
        }
    }
}

/// The position of the entry of `m` under `key` (`IndexMap::get_index_of`).
pub fn find_entry<V>(m: &Vec<(String, V)>, key: &str) -> (r: Option<usize>)
    ensures
        match r {
            Some(i) => i < m@.len() && i == entry_index(m@, key@) && lookup(m@, key@) == Some(
                m@[i as int].1,
            ),
            None => lookup(m@, key@) is None,
        },
{
    let kc = crate::text::chars_of(key);
    proof {
        lemma_lookup_index(m@, key@);
    }
    let mut i: usize = 0;
    while i < m.len()
        invariant
            0 <= i <= m@.len(),
            kc@ == key@,
            forall|k: int| 0 <= k < i ==> (#[trigger] m@[k]).0@ != key@,
            0 <= entry_index(m@, key@) <= m@.len(),
            entry_index(m@, key@) < m@.len() ==> m@[entry_index(m@, key@)].0@ == key@ && lookup(
                m@,
                key@,
            ) == Some(m@[entry_index(m@, key@)].1),
            entry_index(m@, key@) == m@.len() ==> lookup(m@, key@) is None,
            forall|k: int| 0 <= k < entry_index(m@, key@) ==> (#[trigger] m@[k]).0@ != key@,
        decreases m.len() - i,
    {
        let c = crate::text::chars_of(m[i].0.as_str());
        if crate::text::slices_equal(c.as_slice(), kc.as_slice()) {
            proof {
                if entry_index(m@, key@) > i {
                    assert(m@[i as int].0@ != key@);
                }
            }
            return Some(i);
        }
        i = i + 1;
    }
    None
}

// ---- Operations of a path --------------------------------------------------------

/// `[(name, op)]` when the operation is present, else nothing.
pub open spec fn named_op(name: Seq<char>, o: Option<Operation>) -> Seq<(Seq<char>, Operation)> {
    match o {
        Some(op) => seq![(name, op)],
        None => seq![],
    }
}

/// The operations defined on a path, in method order get, post, put,
/// patch, delete, each with its method name.
pub open spec fn spec_operations(p: PathItem) -> Seq<(Seq<char>, Operation)> {
    named_op("get"@, p.get) + named_op("post"@, p.post) + named_op("put"@, p.put) + named_op(
        "patch"@,
        p.patch,
    ) + named_op("delete"@, p.delete)
}

/// The method names and operations of a list produced by `operations`.
pub open spec fn ops_view(v: Seq<(&'static str, &Operation)>) -> Seq<(Seq<char>, Operation)> {
    v.map_values(|x: (&'static str, &Operation)| (x.0@, *x.1))
}

impl PathItem {
    /// All (method_name, operation) pairs defined on this path.
    pub fn operations(&self) -> (r: Vec<(&'static str, &Operation)>)
        ensures
            ops_view(r@) == spec_operations(*self),
    {
        let mut r: Vec<(&'static str, &Operation)> = Vec::new();
        let ghost g = named_op("get"@, self.get);
        if let Some(op) = &self.get {
            r.push(("get", op));
        }
        assert(ops_view(r@) =~= g);
        let ghost g2 = g + named_op("post"@, self.post);
        if let Some(op) = &self.post {
            r.push(("post", op));
        }
        assert(ops_view(r@) =~= g2);
        let ghost g3 = g2 + named_op("put"@, self.put);
        if let Some(op) = &self.put {
            r.push(("put", op));
        }
        assert(ops_view(r@) =~= g3);
        let ghost g4 = g3 + named_op("patch"@, self.patch);
        if let Some(op) = &self.patch {
            r.push(("patch", op));
        }
        assert(ops_view(r@) =~= g4);
        if let Some(op) = &self.delete {
            r.push(("delete", op));
        }
        assert(ops_view(r@) =~= g4 + named_op("delete"@, self.delete));
        r
    }
}

/// 1 when the operation is there, else 0.
pub open spec fn count(o: Option<Operation>) -> int {
    if o is Some {
        1
    } else {
        0
    }
}

/// The position among the operations present of the method at `k` (get,
/// post, put, patch, delete): how many of the methods before it are there.
pub open spec fn slot(p: PathItem, k: int) -> int {
    (if k > 0 {
        count(p.get)
    } else {
        0
    }) + (if k > 1 {
        count(p.post)
    } else {
        0
    }) + (if k > 2 {
        count(p.put)
    } else {
        0
    }) + (if k > 3 {
        count(p.patch)
    } else {
        0
    })
}

impl PathItem {
    /// Mutable references to all operations, with their method names, in
    /// method order get, post, put, patch, delete: what is written through
    /// them ends up in this path item.
    pub fn operations_mut(&mut self) -> (r: Vec<(&'static str, &mut Operation)>)
        ensures
            r@.len() == spec_operations(*old(self)).len(),
            forall|i: int| 0 <= i < r@.len() ==> (#[trigger] r@[i]).0@ == spec_operations(*old(self))[i].0
                && *r@[i].1 == spec_operations(*old(self))[i].1,
            final(self).parameters == old(self).parameters,
            old(self).get is None ==> final(self).get is None,
            old(self).get is Some ==> final(self).get == Some(*final(r@[0].1)),
            old(self).post is None ==> final(self).post is None,
            old(self).post is Some ==> final(self).post == Some(*final(r@[slot(*old(self), 1)].1)),
            old(self).put is None ==> final(self).put is None,
            old(self).put is Some ==> final(self).put == Some(*final(r@[slot(*old(self), 2)].1)),
            old(self).patch is None ==> final(self).patch is None,
            old(self).patch is Some ==> final(self).patch == Some(*final(r@[slot(*old(self), 3)].1)),
            old(self).delete is None ==> final(self).delete is None,
            old(self).delete is Some ==> final(self).delete == Some(*final(r@[slot(*old(self), 4)].1)),
    {
        let mut r: Vec<(&'static str, &mut Operation)> = Vec::new();
        if let Some(op) = &mut self.get {
            r.push(("get", op));
        }
        if let Some(op) = &mut self.post {
            r.push(("post", op));
        }
        if let Some(op) = &mut self.put {
            r.push(("put", op));
        }
        if let Some(op) = &mut self.patch {
            r.push(("patch", op));
        }
        if let Some(op) = &mut self.delete {
            r.push(("delete", op));
        }
        r
    }
}

} // verus!
