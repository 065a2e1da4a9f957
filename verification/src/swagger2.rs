//! Conversion of a Swagger 2.0 document into an OpenAPI 3.0 document, as a
//! structural rewrite of the document tree: `host`/`basePath`/`schemes`
//! become a server, `definitions` become component schemas, body and form
//! parameters become request bodies, and response schemas move under content
//! types.
use vstd::prelude::*;

use crate::parser::ParseError;
use crate::text;
use crate::value::{Value, ValueV};
use crate::value;

verus! {

// ---- Specification ---------------------------------------------------------------

/// The string value `s`.
pub open spec fn vs(s: Seq<char>) -> ValueV {
    ValueV::String(s)
}

/// `o`, or `d` when it is absent.
pub open spec fn str_or(o: Option<Seq<char>>, d: Seq<char>) -> Seq<char> {
    match o {
        Some(s) => s,
        None => d,
    }
}

/// The first element of a sequence value, as a string.
pub open spec fn first_str(v: Option<ValueV>) -> Option<Seq<char>> {
    match value::opt_seq(v) {
        Some(s) => if s.len() > 0 {
            value::opt_str(Some(s[0]))
        } else {
            None
        },
        None => None,
    }
}

/// `str::replace`: every non-overlapping occurrence of `pat` in `s`, from
/// the left, replaced by `rep`.
pub open spec fn replace_all(s: Seq<char>, pat: Seq<char>, rep: Seq<char>) -> Seq<char>
    decreases s.len(),
{
    if pat.len() == 0 || s.len() < pat.len() {
        s
    } else if text::has_prefix(s, pat) {
        rep + replace_all(s.skip(pat.len() as int), pat, rep)
    } else {
        seq![s[0]] + replace_all(s.drop_first(), pat, rep)
    }
}

/// A `$ref` string with `#/definitions/` turned into `#/components/schemas/`.
pub open spec fn rewrite_ref_text(s: Seq<char>) -> Seq<char> {
    replace_all(s, "#/definitions/"@, "#/components/schemas/"@)
}

/// Rewrites `#/definitions/X` refs to `#/components/schemas/X`, at any depth
/// of mappings and sequences: the value of a `$ref` key that is a string is
/// rewritten, every other value is rewritten recursively.
pub open spec fn rewrite_defs(v: ValueV) -> ValueV
    decreases v, 0int,
{
    match v {
        ValueV::Mapping(m) => ValueV::Mapping(rewrite_entries(m)),
        ValueV::Sequence(s) => ValueV::Sequence(
            Seq::new(
                s.len(),
                |i: int|
                    if 0 <= i < s.len() {
                        rewrite_defs(s[i])
                    } else {
                        ValueV::Null
                    },
            ),
        ),
        other => other,
    }
}

/// The entries of a mapping rewritten by `rewrite_defs`, inserted in order.
pub open spec fn rewrite_entries(m: Seq<(ValueV, ValueV)>) -> Seq<(ValueV, ValueV)>
    decreases m, 1int,
{
    if m.len() == 0 {
        seq![]
    } else {
        let k = m.last().0;
        let v = m.last().1;
        proof {
            assert(decreases_to!(m => m.drop_last()));
        }
        let nv = if k == vs("$ref"@) {
            match v {
                ValueV::String(s) => vs(rewrite_ref_text(s)),
                _ => v,
            }
        } else {
            rewrite_defs(v)
        };
        value::vmap_insert(rewrite_entries(m.drop_last()), k, nv)
    }
}

/// A mapping with one entry.
pub open spec fn single(k: Seq<char>, v: ValueV) -> Seq<(ValueV, ValueV)> {
    value::vmap_insert(seq![], vs(k), v)
}

/// `{content: {<content_type>: {schema: <schema>}}}`.
pub open spec fn request_body(content_type: Seq<char>, schema: ValueV) -> ValueV {
    ValueV::Mapping(
        single(
            "content"@,
            ValueV::Mapping(single(content_type, ValueV::Mapping(single("schema"@, schema)))),
        ),
    )
}

/// What the parameters of a Swagger operation come to: the parameters that
/// stay, the body schema (the last body parameter's), and the form fields with
/// the required ones.
pub struct ParamsAcc {
    pub params: Seq<ValueV>,
    pub body: Option<ValueV>,
    pub form_props: Seq<(ValueV, ValueV)>,
    pub form_required: Seq<ValueV>,
}

/// One Swagger parameter taken into account: `in: body` sets the body schema,
/// `in: formData` adds a form field (its `type` and `format`; named
/// `unknown` when it has no name), any other parameter stays with its refs
/// rewritten. A parameter that is not a mapping is ignored.
pub open spec fn param_step(a: ParamsAcc, param: ValueV) -> ParamsAcc {
    match param {
        ValueV::Mapping(pm) => {
            let loc = str_or(value::opt_str(value::map_get(pm, "in"@)), ""@);
            if loc == "body"@ {
                ParamsAcc { body: value::map_get(pm, "schema"@), ..a }
            } else if loc == "formData"@ {
                let name = str_or(value::opt_str(value::map_get(pm, "name"@)), "unknown"@);
                let required = match value::opt_bool(value::map_get(pm, "required"@)) {
                    Some(b) => b,
                    None => false,
                };
                let p1 = match value::map_get(pm, "type"@) {
                    Some(t) => single("type"@, t),
                    None => seq![],
                };
                let p2 = match value::map_get(pm, "format"@) {
                    Some(f) => value::vmap_insert(p1, vs("format"@), f),
                    None => p1,
                };
                ParamsAcc {
                    form_props: value::vmap_insert(a.form_props, vs(name), ValueV::Mapping(p2)),
                    form_required: if required {
                        a.form_required.push(vs(name))
                    } else {
                        a.form_required
                    },
                    ..a
                }
            } else {
                ParamsAcc { params: a.params.push(rewrite_defs(param)), ..a }
            }
        },
        _ => a,
    }
}

/// The Swagger parameters taken into account in order.
pub open spec fn fold_params(ps: Seq<ValueV>) -> ParamsAcc
    decreases ps.len(),
{
    if ps.len() == 0 {
        ParamsAcc { params: seq![], body: None, form_props: seq![], form_required: seq![] }
    } else {
        param_step(fold_params(ps.drop_last()), ps.last())
    }
}

/// The object schema of the form fields: `type: object`, the `properties`,
/// and the `required` list when some field is required.
pub open spec fn form_schema(a: ParamsAcc) -> ValueV {
    let m1 = single("type"@, vs("object"@));
    let m2 = value::vmap_insert(m1, vs("properties"@), ValueV::Mapping(a.form_props));
    ValueV::Mapping(
        if a.form_required.len() > 0 {
            value::vmap_insert(m2, vs("required"@), ValueV::Sequence(a.form_required))
        } else {
            m2
        },
    )
}

/// The entry `key` of `from` copied into `m` when `from` has it.
pub open spec fn copy_key(m: Seq<(ValueV, ValueV)>, from: Seq<(ValueV, ValueV)>, key: Seq<char>) -> Seq<
    (ValueV, ValueV),
> {
    match value::map_get(from, key) {
        Some(v) => value::vmap_insert(m, vs(key), v),
        None => m,
    }
}

/// A Swagger response as OpenAPI 3: its description (empty when missing),
/// and its schema with refs rewritten under the content type `produces`.
pub open spec fn response_v3(rm: Seq<(ValueV, ValueV)>, produces: Seq<char>) -> ValueV {
    let desc = match value::map_get(rm, "description"@) {
        Some(d) => d,
        None => vs(""@),
    };
    let r1 = single("description"@, desc);
    ValueV::Mapping(
        match value::map_get(rm, "schema"@) {
            Some(sc) => value::vmap_insert(
                r1,
                vs("content"@),
                ValueV::Mapping(
                    single(produces, ValueV::Mapping(single("schema"@, rewrite_defs(sc)))),
                ),
            ),
            None => r1,
        },
    )
}

/// The responses converted in order; a response that is not a mapping is dropped.
pub open spec fn responses_v3(rs: Seq<(ValueV, ValueV)>, produces: Seq<char>) -> Seq<
    (ValueV, ValueV),
>
    decreases rs.len(),
{
    if rs.len() == 0 {
        seq![]
    } else {
        let acc = responses_v3(rs.drop_last(), produces);
        match rs.last().1 {
            ValueV::Mapping(rm) => value::vmap_insert(acc, rs.last().0, response_v3(rm, produces)),
            _ => acc,
        }
    }
}

/// A Swagger 2.0 operation as OpenAPI 3.0: summary, description,
/// operationId, tags and deprecated are kept; non-body parameters stay; a body
/// parameter becomes the request body under the operation's first `consumes`
/// type (or `default_consumes`), else form fields become a
/// `multipart/form-data` request body; responses move their schema under the
/// operation's first `produces` type (or `default_produces`).
pub open spec fn operation_v3(
    op: Seq<(ValueV, ValueV)>,
    default_consumes: Seq<char>,
    default_produces: Seq<char>,
) -> ValueV {
    let m0 = copy_key(seq![], op, "summary"@);
    let m1 = copy_key(m0, op, "description"@);
    let m2 = copy_key(m1, op, "operationId"@);
    let m3 = copy_key(m2, op, "tags"@);
    let m4 = copy_key(m3, op, "deprecated"@);
    let pa = fold_params(
        match value::opt_seq(value::map_get(op, "parameters"@)) {
            Some(s) => s,
            None => seq![],
        },
    );
    let m5 = if pa.params.len() > 0 {
        value::vmap_insert(m4, vs("parameters"@), ValueV::Sequence(pa.params))
    } else {
        m4
    };
    let m6 = match pa.body {
        Some(schema) => value::vmap_insert(
            m5,
            vs("requestBody"@),
            request_body(
                str_or(first_str(value::map_get(op, "consumes"@)), default_consumes),
                rewrite_defs(schema),
            ),
        ),
        None => if pa.form_props.len() > 0 {
            value::vmap_insert(m5, vs("requestBody"@), request_body("multipart/form-data"@, form_schema(pa)))
        } else {
            m5
        },
    };
    ValueV::Mapping(
        match value::opt_map(value::map_get(op, "responses"@)) {
            Some(rs) => value::vmap_insert(
                m6,
                vs("responses"@),
                ValueV::Mapping(
                    responses_v3(rs, str_or(first_str(value::map_get(op, "produces"@)), default_produces)),
                ),
            ),
            None => m6,
        },
    )
}

/// The operations of a path item converted; entries that are not mappings
/// are dropped.
pub open spec fn item_v3(item: Seq<(ValueV, ValueV)>, dc: Seq<char>, dp: Seq<char>) -> Seq<
    (ValueV, ValueV),
>
    decreases item.len(),
{
    if item.len() == 0 {
        seq![]
    } else {
        let acc = item_v3(item.drop_last(), dc, dp);
        match item.last().1 {
            ValueV::Mapping(om) => value::vmap_insert(acc, item.last().0, operation_v3(om, dc, dp)),
            _ => acc,
        }
    }
}

/// The paths converted; path items that are not mappings are dropped.
pub open spec fn paths_v3(paths: Seq<(ValueV, ValueV)>, dc: Seq<char>, dp: Seq<char>) -> Seq<
    (ValueV, ValueV),
>
    decreases paths.len(),
{
    if paths.len() == 0 {
        seq![]
    } else {
        let acc = paths_v3(paths.drop_last(), dc, dp);
        match paths.last().1 {
            ValueV::Mapping(im) => value::vmap_insert(
                acc,
                paths.last().0,
                ValueV::Mapping(item_v3(im, dc, dp)),
            ),
            _ => acc,
        }
    }
}

/// The definitions with their refs rewritten.
pub open spec fn definitions_v3(defs: Seq<(ValueV, ValueV)>) -> Seq<(ValueV, ValueV)>
    decreases defs.len(),
{
    if defs.len() == 0 {
        seq![]
    } else {
        value::vmap_insert(definitions_v3(defs.drop_last()), defs.last().0, rewrite_defs(defs.last().1))
    }
}

/// A Swagger 2.0 document (a mapping) as an OpenAPI 3.0.0 document.
pub open spec fn document_v3(m: Seq<(ValueV, ValueV)>) -> ValueV {
    let r1 = single("openapi"@, vs("3.0.0"@));
    let r2 = copy_key(r1, m, "info"@);
    let host = str_or(value::opt_str(value::map_get(m, "host"@)), "localhost"@);
    let base_path = str_or(value::opt_str(value::map_get(m, "basePath"@)), ""@);
    let scheme = str_or(first_str(value::map_get(m, "schemes"@)), "https"@);
    let url = scheme + "://"@ + host + base_path;
    let r3 = value::vmap_insert(
        r2,
        vs("servers"@),
        ValueV::Sequence(seq![ValueV::Mapping(single("url"@, vs(url)))]),
    );
    let dc = str_or(first_str(value::map_get(m, "consumes"@)), "application/json"@);
    let dp = str_or(first_str(value::map_get(m, "produces"@)), "application/json"@);
    let r4 = match value::opt_map(value::map_get(m, "paths"@)) {
        Some(paths) => value::vmap_insert(r3, vs("paths"@), ValueV::Mapping(paths_v3(paths, dc, dp))),
        None => value::vmap_insert(r3, vs("paths"@), ValueV::Mapping(seq![])),
    };
    let c1 = match value::opt_map(value::map_get(m, "definitions"@)) {
        Some(defs) => single("schemas"@, ValueV::Mapping(definitions_v3(defs))),
        None => seq![],
    };
    let c2 = match value::opt_map(value::map_get(m, "parameters"@)) {
        Some(ps) => value::vmap_insert(c1, vs("parameters"@), ValueV::Mapping(ps)),
        None => c1,
    };
    ValueV::Mapping(
        if c2.len() > 0 {
            value::vmap_insert(r4, vs("components"@), ValueV::Mapping(c2))
        } else {
            r4
        },
    )
}

// ---- Executable conversion ------------------------------------------------------

/// Whether `pat` occurs in `s` at position `i`.
fn prefix_at(s: &[char], i: usize, pat: &[char]) -> (r: bool)
    requires
        i <= s.len(),
    ensures
        r == text::has_prefix(s@.skip(i as int), pat@),
{
    if pat.len() > s.len() - i {
        return false;
    }
    let mut j: usize = 0;
    while j < pat.len()
        invariant
            i + pat.len() <= s.len(),
            0 <= j <= pat.len(),
            forall|k: int| 0 <= k < j ==> s@[i + k] == pat@[k],
        decreases pat.len() - j,
    {
        if s[i + j] != pat[j] {
            assert(s@.skip(i as int).subrange(0, pat@.len() as int)[j as int] != pat@[j as int]);
            return false;
        }
        j = j + 1;
    }
    assert(s@.skip(i as int).subrange(0, pat@.len() as int) =~= pat@);
    true
}

/// `s` with every occurrence of `pat` from the left replaced by `rep`.
fn replace_all_exec(s: &[char], pat: &[char], rep: &[char]) -> (r: Vec<char>)
    requires
        pat.len() > 0,
    ensures
        r@ == replace_all(s@, pat@, rep@),
{
    let mut out: Vec<char> = Vec::new();
    let mut i: usize = 0;
    assert(s@.skip(0) =~= s@);
    while i < s.len()
        invariant
            0 <= i <= s@.len(),
            pat@.len() > 0,
            out@ + replace_all(s@.skip(i as int), pat@, rep@) == replace_all(s@, pat@, rep@),
        decreases s@.len() - i,
    {
        let ghost t = s@.skip(i as int);
        if s.len() - i < pat.len() {
            let ghost before = out@;
            let mut k: usize = i;
            while k < s.len()
                invariant
                    i <= k <= s@.len(),
                    out@ == before + s@.subrange(i as int, k as int),
                decreases s@.len() - k,
            {
                out.push(s[k]);
                k = k + 1;
            }
            assert(s@.subrange(i as int, s@.len() as int) =~= t);
            assert(s@.skip(s@.len() as int) =~= Seq::<char>::empty());
            assert(replace_all(s@.skip(s@.len() as int), pat@, rep@) =~= Seq::<char>::empty());
            assert(out@ + Seq::<char>::empty() =~= out@);
            i = s.len();
        } else if prefix_at(s, i, pat) {
            let ghost before = out@;
            text::push_all(&mut out, rep);
            assert(t.skip(pat@.len() as int) =~= s@.skip(i + pat@.len()));
            assert(before + replace_all(t, pat@, rep@) =~= out@ + replace_all(
                s@.skip(i + pat@.len()),
                pat@,
                rep@,
            ));
            i = i + pat.len();
        } else {
            let ghost before = out@;
            out.push(s[i]);
            assert(t[0] == s@[i as int]);
            assert(t.drop_first() =~= s@.skip(i + 1));
            assert(before + replace_all(t, pat@, rep@) =~= out@ + replace_all(
                s@.skip(i + 1),
                pat@,
                rep@,
            ));
            i = i + 1;
        }
    }
    assert(s@.skip(s@.len() as int) =~= Seq::<char>::empty());
    assert(out@ + Seq::<char>::empty() =~= out@);
    out
}

/// A `$ref` string with `#/definitions/` turned into `#/components/schemas/`.
fn rewrite_ref_string(s: &String) -> (r: String)
    ensures
        r@ == rewrite_ref_text(s@),
{
    let c = text::chars_of(s.as_str());
    let pat = text::chars_of("#/definitions/");
    let rep = text::chars_of("#/components/schemas/");
    proof {
        reveal_strlit("#/definitions/");
    }
    let out = replace_all_exec(c.as_slice(), pat.as_slice(), rep.as_slice());
    text::string_of(out.as_slice())
}

/// Rewrites `#/definitions/X` refs to `#/components/schemas/X` in a copy of `v`.
fn rewrite_ref_value(v: &Value) -> (r: Value)
    ensures
        r@ == rewrite_defs(v@),
    decreases *v, 0int,
{
    match v {
        Value::Mapping(m) => {
            let out = rewrite_ref_entries(m);
            proof {
                value::lemma_mapping_value_view(*m);
                value::lemma_mapping_value_view(out);
            }
            Value::Mapping(out)
        },
        Value::Sequence(items) => {
            let out = rewrite_ref_items(items);
            proof {
                value::lemma_sequence_view(*items);
                value::lemma_sequence_view(out);
                assert(value::values_view(out@) =~= rewrite_defs(v@)->Sequence_0);
            }
            Value::Sequence(out)
        },
        _ => v.deep_copy(),
    }
}

/// The items of a sequence rewritten by `rewrite_defs`.
fn rewrite_ref_items(items: &Vec<Value>) -> (r: Vec<Value>)
    ensures
        r@.len() == items@.len(),
        forall|k: int| 0 <= k < items@.len() ==> (#[trigger] r@[k])@ == rewrite_defs(items@[k]@),
    decreases *items, 1int,
{
    let mut out: Vec<Value> = Vec::new();
    let mut i: usize = 0;
    while i < items.len()
        invariant
            0 <= i <= items@.len(),
            out@.len() == i,
            forall|k: int| 0 <= k < i ==> (#[trigger] out@[k])@ == rewrite_defs(items@[k]@),
        decreases items@.len() - i,
    {
        proof {
            assert(decreases_to!(*items => items[i as int]));
        }
        out.push(rewrite_ref_value(&items[i]));
        i = i + 1;
    }
    out
}

/// The entries of a mapping rewritten by `rewrite_defs`.
fn rewrite_ref_entries(m: &Vec<(Value, Value)>) -> (r: Vec<(Value, Value)>)
    ensures
        value::entries_view(r@) == rewrite_entries(value::entries_view(m@)),
    decreases *m, 1int,
{
    let ghost e = value::entries_view(m@);
    let rk = text::chars_of("$ref");
    let mut out: Vec<(Value, Value)> = Vec::new();
    let mut i: usize = 0;
    assert(e.take(0) =~= Seq::<(ValueV, ValueV)>::empty());
    assert(value::entries_view(out@) =~= Seq::<(ValueV, ValueV)>::empty());
    while i < m.len()
        invariant
            0 <= i <= m@.len(),
            e == value::entries_view(m@),
            rk@ == "$ref"@,
            value::entries_view(out@) == rewrite_entries(e.take(i as int)),
        decreases m@.len() - i,
    {
        proof {
            assert(decreases_to!(*m => m[i as int]));
            let t = e.take(i + 1);
            assert(t.drop_last() =~= e.take(i as int));
            assert(t.last() == (m@[i as int].0@, m@[i as int].1@));
        }
        let k = &m[i].0;
        let val = &m[i].1;
        let nv = if value::value_is_str(k, rk.as_slice()) {
            match val {
                Value::String(s) => Value::String(rewrite_ref_string(s)),
                _ => val.deep_copy(),
            }
        } else {
            rewrite_ref_value(val)
        };
        value::mapping_insert(&mut out, k.deep_copy(), nv);
        i = i + 1;
    }
    assert(e.take(m@.len() as int) =~= e);
    out
}

/// Rewrite `#/definitions/X` refs to `#/components/schemas/X`.
pub fn rewrite_definition_refs(value: Value) -> (r: Value)
    ensures
        r@ == rewrite_defs(value@),
{
    rewrite_ref_value(&value)
}

/// A mapping with one entry.
fn single_exec(k: &str, v: Value) -> (r: Vec<(Value, Value)>)
    ensures
        value::entries_view(r@) == single(k@, v@),
{
    let mut m: Vec<(Value, Value)> = Vec::new();
    assert(value::entries_view(m@) =~= Seq::<(ValueV, ValueV)>::empty());
    value::mapping_insert(&mut m, value::str_value(k), v);
    m
}

/// `{content: {<content_type>: {schema: <schema>}}}`.
fn request_body_exec(content_type: &str, schema: Value) -> (r: Value)
    ensures
        r@ == request_body(content_type@, schema@),
{
    let media = single_exec("schema", schema);
    proof {
        value::lemma_mapping_value_view(media);
    }
    let content = single_exec(content_type, Value::Mapping(media));
    proof {
        value::lemma_mapping_value_view(content);
    }
    let body = single_exec("content", Value::Mapping(content));
    proof {
        value::lemma_mapping_value_view(body);
    }
    Value::Mapping(body)
}

/// Copies the entry `key` of `from` into `m` when `from` has it.
fn copy_key_exec(m: &mut Vec<(Value, Value)>, from: &Vec<(Value, Value)>, key: &str)
    ensures
        value::entries_view(final(m)@) == copy_key(
            value::entries_view(old(m)@),
            value::entries_view(from@),
            key@,
        ),
{
    match value::map_lookup(from, key) {
        Some(v) => value::mapping_insert(m, value::str_value(key), v.deep_copy()),
        None => {},
    }
}

/// The first element of a sequence value, as a string.
fn first_str_exec(v: Option<&Value>) -> (r: Option<&String>)
    ensures
        match r {
            Some(s) => first_str(value::opt_view(v)) == Some(s@),
            None => first_str(value::opt_view(v)) is None,
        },
{
    match value::as_sequence(v) {
        Some(s) => if s.len() > 0 {
            value::as_str(Some(&s[0]))
        } else {
            None
        },
        None => None,
    }
}

/// `o`, or `d` when it is absent.
fn str_or_exec(o: Option<&String>, d: &str) -> (r: String)
    ensures
        r@ == str_or(
            match o {
                Some(s) => Some(s@),
                None => None,
            },
            d@,
        ),
{
    match o {
        Some(s) => s.clone(),
        None => text::owned(d),
    }
}

/// What the parameters of a Swagger operation have come to so far.
struct ParamsState {
    params: Vec<Value>,
    body: Option<Value>,
    form_props: Vec<(Value, Value)>,
    form_required: Vec<Value>,
}

/// The view of the state.
spec fn state_view(a: ParamsState) -> ParamsAcc {
    ParamsAcc {
        params: value::values_view(a.params@),
        body: match a.body {
            Some(b) => Some(b@),
            None => None,
        },
        form_props: value::entries_view(a.form_props@),
        form_required: value::values_view(a.form_required@),
    }
}

/// Takes one Swagger parameter into account (see `param_step`).
fn param_step_exec(a: &mut ParamsState, param: &Value)
    ensures
        state_view(*final(a)) == param_step(state_view(*old(a)), param@),
{
    let pm = match param {
        Value::Mapping(pm) => pm,
        _ => return,
    };
    proof {
        value::lemma_mapping_value_view(*pm);
    }
    let loc = str_or_exec(value::as_str(value::map_lookup(pm, "in")), "");
    let lc = text::chars_of(loc.as_str());
    if text::slices_equal(lc.as_slice(), text::chars_of("body").as_slice()) {
        a.body = match value::map_lookup(pm, "schema") {
            Some(sc) => Some(sc.deep_copy()),
            None => None,
        };
    } else if text::slices_equal(lc.as_slice(), text::chars_of("formData").as_slice()) {
        let name = str_or_exec(value::as_str(value::map_lookup(pm, "name")), "unknown");
        let required = match value::as_bool(value::map_lookup(pm, "required")) {
            Some(b) => b,
            None => false,
        };
        let mut prop: Vec<(Value, Value)> = Vec::new();
        assert(value::entries_view(prop@) =~= Seq::<(ValueV, ValueV)>::empty());
        match value::map_lookup(pm, "type") {
            Some(t) => {
                prop = single_exec("type", t.deep_copy());
            },
            None => {},
        }
        match value::map_lookup(pm, "format") {
            Some(f) => value::mapping_insert(&mut prop, value::str_value("format"), f.deep_copy()),
            None => {},
        }
        proof {
            value::lemma_mapping_value_view(prop);
        }
        value::mapping_insert(
            &mut a.form_props,
            Value::String(name.clone()),
            Value::Mapping(prop),
        );
        if required {
            let ghost before = value::values_view(a.form_required@);
            a.form_required.push(Value::String(name));
            assert(value::values_view(a.form_required@) =~= before.push(vs(name@)));
        }
    } else {
        let ghost before = value::values_view(a.params@);
        let x = rewrite_ref_value(param);
        a.params.push(x);
        assert(value::values_view(a.params@) =~= before.push(x@));
    }
}

/// Converts a Swagger 2.0 operation to OpenAPI 3.0 format (see `operation_v3`).
fn convert_operation(op: &Vec<(Value, Value)>, default_consumes: &str, default_produces: &str) -> (r:
    Value)
    ensures
        r@ == operation_v3(value::entries_view(op@), default_consumes@, default_produces@),
{
    let ghost opv = value::entries_view(op@);
    let mut new_op: Vec<(Value, Value)> = Vec::new();
    assert(value::entries_view(new_op@) =~= Seq::<(ValueV, ValueV)>::empty());
    copy_key_exec(&mut new_op, op, "summary");
    copy_key_exec(&mut new_op, op, "description");
    copy_key_exec(&mut new_op, op, "operationId");
    copy_key_exec(&mut new_op, op, "tags");
    copy_key_exec(&mut new_op, op, "deprecated");
    let mut st = ParamsState {
        params: Vec::new(),
        body: None,
        form_props: Vec::new(),
        form_required: Vec::new(),
    };
    proof {
        assert(value::values_view(st.params@) =~= Seq::<ValueV>::empty());
        assert(value::entries_view(st.form_props@) =~= Seq::<(ValueV, ValueV)>::empty());
        assert(value::values_view(st.form_required@) =~= Seq::<ValueV>::empty());
    }
    match value::as_sequence(value::map_lookup(op, "parameters")) {
        Some(params) => {
            let ghost pv = value::values_view(params@);
            let mut i: usize = 0;
            assert(pv.take(0) =~= Seq::<ValueV>::empty());
            while i < params.len()
                invariant
                    0 <= i <= params@.len(),
                    pv == value::values_view(params@),
                    state_view(st) == fold_params(pv.take(i as int)),
                decreases params@.len() - i,
            {
                param_step_exec(&mut st, &params[i]);
                proof {
                    let t = pv.take(i + 1);
                    assert(t.drop_last() =~= pv.take(i as int));
                    assert(t.last() == params@[i as int]@);
                }
                i = i + 1;
            }
            assert(pv.take(params@.len() as int) =~= pv);
        },
        None => {},
    }
    let ghost pa = state_view(st);
    if st.params.len() > 0 {
        let ps = st.params;
        proof {
            value::lemma_sequence_view(ps);
        }
        value::mapping_insert(&mut new_op, value::str_value("parameters"), Value::Sequence(ps));
    }
    match st.body {
        Some(schema) => {
            let ct = str_or_exec(first_str_exec(value::map_lookup(op, "consumes")), default_consumes);
            let body = request_body_exec(ct.as_str(), rewrite_ref_value(&schema));
            value::mapping_insert(&mut new_op, value::str_value("requestBody"), body);
        },
        None => {
            if st.form_props.len() > 0 {
                let mut schema = single_exec("type", value::str_value("object"));
                let fp = st.form_props;
                proof {
                    value::lemma_mapping_value_view(fp);
                }
                value::mapping_insert(&mut schema, value::str_value("properties"), Value::Mapping(fp));
                if st.form_required.len() > 0 {
                    let fr = st.form_required;
                    proof {
                        value::lemma_sequence_view(fr);
                    }
                    value::mapping_insert(&mut schema, value::str_value("required"), Value::Sequence(fr));
                }
                proof {
                    value::lemma_mapping_value_view(schema);
                }
                let body = request_body_exec("multipart/form-data", Value::Mapping(schema));
                value::mapping_insert(&mut new_op, value::str_value("requestBody"), body);
            }
        },
    }
    match value::as_mapping(value::map_lookup(op, "responses")) {
        Some(responses) => {
            let produces = str_or_exec(first_str_exec(value::map_lookup(op, "produces")), default_produces);
            let nr = convert_responses(responses, produces.as_str());
            proof {
                value::lemma_mapping_value_view(nr);
            }
            value::mapping_insert(&mut new_op, value::str_value("responses"), Value::Mapping(nr));
        },
        None => {},
    }
    proof {
        value::lemma_mapping_value_view(new_op);
    }
    Value::Mapping(new_op)
}

/// Converts the responses of an operation (see `responses_v3`).
fn convert_responses(responses: &Vec<(Value, Value)>, produces: &str) -> (r: Vec<(Value, Value)>)
    ensures
        value::entries_view(r@) == responses_v3(value::entries_view(responses@), produces@),
{
    let ghost e = value::entries_view(responses@);
    let mut out: Vec<(Value, Value)> = Vec::new();
    let mut i: usize = 0;
    assert(e.take(0) =~= Seq::<(ValueV, ValueV)>::empty());
    assert(value::entries_view(out@) =~= Seq::<(ValueV, ValueV)>::empty());
    while i < responses.len()
        invariant
            0 <= i <= responses@.len(),
            e == value::entries_view(responses@),
            value::entries_view(out@) == responses_v3(e.take(i as int), produces@),
        decreases responses@.len() - i,
    {
        proof {
            let t = e.take(i + 1);
            assert(t.drop_last() =~= e.take(i as int));
            assert(t.last() == (responses@[i as int].0@, responses@[i as int].1@));
        }
        match &responses[i].1 {
            Value::Mapping(rm) => {
                proof {
                    value::lemma_mapping_value_view(*rm);
                }
                let desc = match value::map_lookup(rm, "description") {
                    Some(d) => d.deep_copy(),
                    None => value::str_value(""),
                };
                let mut new_resp = single_exec("description", desc);
                match value::map_lookup(rm, "schema") {
                    Some(sc) => {
                        let media = single_exec("schema", rewrite_ref_value(sc));
                        proof {
                            value::lemma_mapping_value_view(media);
                        }
                        let ctm = single_exec(produces, Value::Mapping(media));
                        proof {
                            value::lemma_mapping_value_view(ctm);
                        }
                        value::mapping_insert(&mut new_resp, value::str_value("content"), Value::Mapping(ctm));
                    },
                    None => {},
                }
                proof {
                    value::lemma_mapping_value_view(new_resp);
                }
                value::mapping_insert(&mut out, responses[i].0.deep_copy(), Value::Mapping(new_resp));
            },
            _ => {},
        }
        i = i + 1;
    }
    assert(e.take(responses@.len() as int) =~= e);
    out
}

/// Converts the operations of a path item (see `item_v3`).
fn convert_item(item: &Vec<(Value, Value)>, dc: &str, dp: &str) -> (r: Vec<(Value, Value)>)
    ensures
        value::entries_view(r@) == item_v3(value::entries_view(item@), dc@, dp@),
{
    let ghost e = value::entries_view(item@);
    let mut out: Vec<(Value, Value)> = Vec::new();
    let mut i: usize = 0;
    assert(e.take(0) =~= Seq::<(ValueV, ValueV)>::empty());
    assert(value::entries_view(out@) =~= Seq::<(ValueV, ValueV)>::empty());
    while i < item.len()
        invariant
            0 <= i <= item@.len(),
            e == value::entries_view(item@),
            value::entries_view(out@) == item_v3(e.take(i as int), dc@, dp@),
        decreases item@.len() - i,
    {
        proof {
            let t = e.take(i + 1);
            assert(t.drop_last() =~= e.take(i as int));
            assert(t.last() == (item@[i as int].0@, item@[i as int].1@));
        }
        match &item[i].1 {
            Value::Mapping(om) => {
                proof {
                    value::lemma_mapping_value_view(*om);
                }
                let nop = convert_operation(om, dc, dp);
                value::mapping_insert(&mut out, item[i].0.deep_copy(), nop);
            },
            _ => {},
        }
        i = i + 1;
    }
    assert(e.take(item@.len() as int) =~= e);
    out
}

/// Converts the paths of a document (see `paths_v3`).
fn convert_paths(paths: &Vec<(Value, Value)>, dc: &str, dp: &str) -> (r: Vec<(Value, Value)>)
    ensures
        value::entries_view(r@) == paths_v3(value::entries_view(paths@), dc@, dp@),
{
    let ghost e = value::entries_view(paths@);
    let mut out: Vec<(Value, Value)> = Vec::new();
    let mut i: usize = 0;
    assert(e.take(0) =~= Seq::<(ValueV, ValueV)>::empty());
    assert(value::entries_view(out@) =~= Seq::<(ValueV, ValueV)>::empty());
    while i < paths.len()
        invariant
            0 <= i <= paths@.len(),
            e == value::entries_view(paths@),
            value::entries_view(out@) == paths_v3(e.take(i as int), dc@, dp@),
        decreases paths@.len() - i,
    {
        proof {
            let t = e.take(i + 1);
            assert(t.drop_last() =~= e.take(i as int));
            assert(t.last() == (paths@[i as int].0@, paths@[i as int].1@));
        }
        match &paths[i].1 {
            Value::Mapping(im) => {
                proof {
                    value::lemma_mapping_value_view(*im);
                }
                let ni = convert_item(im, dc, dp);
                proof {
                    value::lemma_mapping_value_view(ni);
                }
                value::mapping_insert(&mut out, paths[i].0.deep_copy(), Value::Mapping(ni));
            },
            _ => {},
        }
        i = i + 1;
    }
    assert(e.take(paths@.len() as int) =~= e);
    out
}

/// Converts the definitions of a document (see `definitions_v3`).
fn convert_definitions(defs: &Vec<(Value, Value)>) -> (r: Vec<(Value, Value)>)
    ensures
        value::entries_view(r@) == definitions_v3(value::entries_view(defs@)),
{
    let ghost e = value::entries_view(defs@);
    let mut out: Vec<(Value, Value)> = Vec::new();
    let mut i: usize = 0;
    assert(e.take(0) =~= Seq::<(ValueV, ValueV)>::empty());
    assert(value::entries_view(out@) =~= Seq::<(ValueV, ValueV)>::empty());
    while i < defs.len()
        invariant
            0 <= i <= defs@.len(),
            e == value::entries_view(defs@),
            value::entries_view(out@) == definitions_v3(e.take(i as int)),
        decreases defs@.len() - i,
    {
        proof {
            let t = e.take(i + 1);
            assert(t.drop_last() =~= e.take(i as int));
            assert(t.last() == (defs@[i as int].0@, defs@[i as int].1@));
        }
        let nv = rewrite_ref_value(&defs[i].1);
        value::mapping_insert(&mut out, defs[i].0.deep_copy(), nv);
        i = i + 1;
    }
    assert(e.take(defs@.len() as int) =~= e);
    out
}

/// Converts a Swagger 2.0 document to an OpenAPI 3.0 document: it is
/// refused with `UnsupportedVersion("invalid swagger document")` exactly
/// when it is not a mapping, and otherwise converted as `document_v3` says.
pub fn convert_to_openapi3(swagger: Value) -> (r: Result<Value, ParseError>)
    ensures
        match swagger@ {
            ValueV::Mapping(m) => r matches Ok(v) && v@ == document_v3(m),
            _ => r matches Err(ParseError::UnsupportedVersion(msg))
                && msg@ == "invalid swagger document"@,
        },
{
    let m = match &swagger {
        Value::Mapping(m) => m,
        _ => {
            proof {
                reveal_with_fuel(value::value_view, 2);
            }
            let msg = text::owned("invalid swagger document");
            return Err(ParseError::UnsupportedVersion(msg));
        },
    };
    proof {
        value::lemma_mapping_value_view(*m);
    }
    let ghost mv = value::entries_view(m@);
    let mut result = single_exec("openapi", value::str_value("3.0.0"));
    copy_key_exec(&mut result, m, "info");
    let host = str_or_exec(value::as_str(value::map_lookup(m, "host")), "localhost");
    let base_path = str_or_exec(value::as_str(value::map_lookup(m, "basePath")), "");
    let scheme = str_or_exec(first_str_exec(value::map_lookup(m, "schemes")), "https");
    let u1 = text::concat(scheme.as_str(), "://");
    let u2 = text::concat(u1.as_str(), host.as_str());
    let url = text::concat(u2.as_str(), base_path.as_str());
    let server = single_exec("url", Value::String(url));
    proof {
        value::lemma_mapping_value_view(server);
    }
    let servers = vec![Value::Mapping(server)];
    proof {
        value::lemma_sequence_view(servers);
        assert(value::values_view(servers@) =~= seq![servers@[0]@]);
    }
    value::mapping_insert(&mut result, value::str_value("servers"), Value::Sequence(servers));
    let dc = str_or_exec(first_str_exec(value::map_lookup(m, "consumes")), "application/json");
    let dp = str_or_exec(first_str_exec(value::map_lookup(m, "produces")), "application/json");
    match value::as_mapping(value::map_lookup(m, "paths")) {
        Some(paths) => {
            let np = convert_paths(paths, dc.as_str(), dp.as_str());
            proof {
                value::lemma_mapping_value_view(np);
            }
            value::mapping_insert(&mut result, value::str_value("paths"), Value::Mapping(np));
        },
        None => {
            let empty: Vec<(Value, Value)> = Vec::new();
            proof {
                value::lemma_mapping_value_view(empty);
                assert(value::entries_view(empty@) =~= Seq::<(ValueV, ValueV)>::empty());
            }
            value::mapping_insert(&mut result, value::str_value("paths"), Value::Mapping(empty));
        },
    }
    let mut components: Vec<(Value, Value)> = Vec::new();
    assert(value::entries_view(components@) =~= Seq::<(ValueV, ValueV)>::empty());
    match value::as_mapping(value::map_lookup(m, "definitions")) {
        Some(defs) => {
            let schemas = convert_definitions(defs);
            proof {
                value::lemma_mapping_value_view(schemas);
            }
            components = single_exec("schemas", Value::Mapping(schemas));
        },
        None => {},
    }
    match value::as_mapping(value::map_lookup(m, "parameters")) {
        Some(ps) => {
            let pc = value::copy_mapping(ps);
            proof {
                value::lemma_mapping_value_view(pc);
            }
            value::mapping_insert(&mut components, value::str_value("parameters"), Value::Mapping(pc));
        },
        None => {},
    }
    if components.len() > 0 {
        proof {
            value::lemma_mapping_value_view(components);
        }
        value::mapping_insert(&mut result, value::str_value("components"), Value::Mapping(components));
    }
    proof {
        value::lemma_mapping_value_view(result);
    }
    Ok(Value::Mapping(result))
}

// ---- Laws ---------------------------------------------------------------------------

/// Text without a `#` has nothing to replace.
proof fn lemma_replace_no_hash(x: Seq<char>)
    requires
        !x.contains('#'),
    ensures
        replace_all(x, "#/definitions/"@, "#/components/schemas/"@) == x,
    decreases x.len(),
{
    reveal_strlit("#/definitions/");
    let pat = "#/definitions/"@;
    let rep = "#/components/schemas/"@;
    if pat.len() > 0 && x.len() >= pat.len() {
        assert(!text::has_prefix(x, pat)) by {
            if text::has_prefix(x, pat) {
                assert(x.subrange(0, pat.len() as int)[0] == x[0]);
                assert(x[0] == '#');
            }
        }
        assert forall|c: char| x.drop_first().contains(c) implies x.contains(c) by {
            let k = choose|k: int| 0 <= k < x.drop_first().len() && x.drop_first()[k] == c;
            assert(x[k + 1] == c);
        }
        lemma_replace_no_hash(x.drop_first());
        assert(x =~= seq![x[0]] + x.drop_first());
    }
}

/// A Swagger 2.0 definition ref `#/definitions/X` (for a name `X` without
/// a `#`) becomes the component ref `#/components/schemas/X`.
pub proof fn law_definition_ref_rewritten(name: Seq<char>)
    requires
        !name.contains('#'),
    ensures
        rewrite_ref_text("#/definitions/"@ + name) == "#/components/schemas/"@ + name,
{
    reveal_strlit("#/definitions/");
    let pat = "#/definitions/"@;
    let rep = "#/components/schemas/"@;
    let s = pat + name;
    assert(s.subrange(0, pat.len() as int) =~= pat);
    assert(s.skip(pat.len() as int) =~= name);
    lemma_replace_no_hash(name);
}

/// A converted Swagger 2.0 document declares OpenAPI `3.0.0`, has one
/// server and a `paths` mapping.
pub proof fn law_document_is_openapi3(m: Seq<(ValueV, ValueV)>)
    ensures
        document_v3(m) is Mapping,
        value::map_get(document_v3(m)->Mapping_0, "openapi"@) == Some(vs("3.0.0"@)),
        value::map_get(document_v3(m)->Mapping_0, "servers"@) matches Some(ValueV::Sequence(servers)) && servers.len() == 1,
        value::map_get(document_v3(m)->Mapping_0, "paths"@) matches Some(ValueV::Mapping(_)),
{
    reveal_strlit("openapi");
    reveal_strlit("info");
    reveal_strlit("servers");
    reveal_strlit("paths");
    reveal_strlit("components");
    assert("servers"@ != "openapi"@) by {
        assert("servers"@[0] != "openapi"@[0]);
    }
    assert("info"@ != "openapi"@ && "info"@ != "servers"@ && "info"@ != "paths"@) by {
        assert("info"@[0] != "openapi"@[0] && "info"@[0] != "servers"@[0] && "info"@[0] != "paths"@[0]);
    }
    assert("paths"@ != "openapi"@ && "paths"@ != "servers"@) by {
        assert("paths"@[0] != "openapi"@[0] && "paths"@[0] != "servers"@[0]);
    }
    assert("components"@ != "openapi"@ && "components"@ != "servers"@ && "components"@ != "paths"@) by {
        assert("components"@[0] != "openapi"@[0] && "components"@[0] != "servers"@[0] && "components"@[0] != "paths"@[0]);
    }
    let r1 = single("openapi"@, vs("3.0.0"@));
    value::lemma_get_after_insert(seq![], "openapi"@, vs("3.0.0"@), "openapi"@);
    value::lemma_get_after_insert(seq![], "openapi"@, vs("3.0.0"@), "servers"@);
    value::lemma_get_after_insert(seq![], "openapi"@, vs("3.0.0"@), "paths"@);
    let r2 = copy_key(r1, m, "info"@);
    match value::map_get(m, "info"@) {
        Some(v) => {
            value::lemma_get_after_insert(r1, "info"@, v, "openapi"@);
            value::lemma_get_after_insert(r1, "info"@, v, "servers"@);
            value::lemma_get_after_insert(r1, "info"@, v, "paths"@);
        },
        None => {},
    }
    assert(value::map_get(Seq::<(ValueV, ValueV)>::empty(), "servers"@) is None);
    assert(value::map_get(Seq::<(ValueV, ValueV)>::empty(), "paths"@) is None);
    let host = str_or(value::opt_str(value::map_get(m, "host"@)), "localhost"@);
    let base_path = str_or(value::opt_str(value::map_get(m, "basePath"@)), ""@);
    let scheme = str_or(first_str(value::map_get(m, "schemes"@)), "https"@);
    let url = scheme + "://"@ + host + base_path;
    let sv = ValueV::Sequence(seq![ValueV::Mapping(single("url"@, vs(url)))]);
    value::lemma_get_after_insert(r2, "servers"@, sv, "openapi"@);
    value::lemma_get_after_insert(r2, "servers"@, sv, "servers"@);
    value::lemma_get_after_insert(r2, "servers"@, sv, "paths"@);
    let r3 = value::vmap_insert(r2, vs("servers"@), sv);
    let dc = str_or(first_str(value::map_get(m, "consumes"@)), "application/json"@);
    let dp = str_or(first_str(value::map_get(m, "produces"@)), "application/json"@);
    let pv = match value::opt_map(value::map_get(m, "paths"@)) {
        Some(paths) => ValueV::Mapping(paths_v3(paths, dc, dp)),
        None => ValueV::Mapping(seq![]),
    };
    value::lemma_get_after_insert(r3, "paths"@, pv, "openapi"@);
    value::lemma_get_after_insert(r3, "paths"@, pv, "servers"@);
    value::lemma_get_after_insert(r3, "paths"@, pv, "paths"@);
    let r4 = value::vmap_insert(r3, vs("paths"@), pv);
    let c1 = match value::opt_map(value::map_get(m, "definitions"@)) {
        Some(defs) => single("schemas"@, ValueV::Mapping(definitions_v3(defs))),
        None => seq![],
    };
    let c2 = match value::opt_map(value::map_get(m, "parameters"@)) {
        Some(ps) => value::vmap_insert(c1, vs("parameters"@), ValueV::Mapping(ps)),
        None => c1,
    };
    value::lemma_get_after_insert(r4, "components"@, ValueV::Mapping(c2), "openapi"@);
    value::lemma_get_after_insert(r4, "components"@, ValueV::Mapping(c2), "servers"@);
    value::lemma_get_after_insert(r4, "components"@, ValueV::Mapping(c2), "paths"@);
}

/// Looking up `b` after copying the entry `k` of `from` into `m`: the copied
/// value when `b` is `k` and `from` has it, else the lookup in `m`.
proof fn lemma_get_after_copy(m: Seq<(ValueV, ValueV)>, from: Seq<(ValueV, ValueV)>, k: Seq<char>, b: Seq<char>)
    ensures
        value::map_get(copy_key(m, from, k), b) == if b == k && value::map_get(from, k) is Some {
            value::map_get(from, k)
        } else {
            value::map_get(m, b)
        },
{
    match value::map_get(from, k) {
        Some(v) => value::lemma_get_after_insert(m, k, v, b),
        None => {},
    }
}

/// A converted operation keeps `summary`, `description`, `operationId`,
/// `tags` and `deprecated` as the Swagger operation has them: each holds the
/// operation's value, and is absent when the operation lacks it.
pub proof fn law_operation_keeps_metadata(
    op: Seq<(ValueV, ValueV)>,
    dc: Seq<char>,
    dp: Seq<char>,
    key: Seq<char>,
)
    requires
        key == "summary"@ || key == "description"@ || key == "operationId"@ || key == "tags"@
            || key == "deprecated"@,
    ensures
        value::spec_get(operation_v3(op, dc, dp), key) == value::map_get(op, key),
{
    reveal_strlit("summary");
    reveal_strlit("description");
    reveal_strlit("operationId");
    reveal_strlit("tags");
    reveal_strlit("deprecated");
    reveal_strlit("parameters");
    reveal_strlit("requestBody");
    reveal_strlit("responses");
    assert("summary"@[0] == 's' && "description"@[0] == 'd' && "operationId"@[0] == 'o');
    assert("tags"@[0] == 't' && "deprecated"@[0] == 'd' && "parameters"@[0] == 'p');
    assert("requestBody"@[0] == 'r' && "responses"@[0] == 'r');
    assert("description"@[2] == 's' && "deprecated"@[2] == 'p');
    assert(key != "parameters"@ && key != "requestBody"@ && key != "responses"@);
    let k0 = copy_key(seq![], op, "summary"@);
    let k1 = copy_key(k0, op, "description"@);
    let k2 = copy_key(k1, op, "operationId"@);
    let k3 = copy_key(k2, op, "tags"@);
    let k4 = copy_key(k3, op, "deprecated"@);
    lemma_get_after_copy(seq![], op, "summary"@, key);
    lemma_get_after_copy(k0, op, "description"@, key);
    lemma_get_after_copy(k1, op, "operationId"@, key);
    lemma_get_after_copy(k2, op, "tags"@, key);
    lemma_get_after_copy(k3, op, "deprecated"@, key);
    assert(value::map_get(Seq::<(ValueV, ValueV)>::empty(), key) is None);
    assert(value::map_get(k4, key) == value::map_get(op, key));
    let pa = fold_params(
        match value::opt_seq(value::map_get(op, "parameters"@)) {
            Some(s) => s,
            None => seq![],
        },
    );
    let k5 = if pa.params.len() > 0 {
        value::vmap_insert(k4, vs("parameters"@), ValueV::Sequence(pa.params))
    } else {
        k4
    };
    if pa.params.len() > 0 {
        value::lemma_get_after_insert(k4, "parameters"@, ValueV::Sequence(pa.params), key);
    }
    assert(value::map_get(k5, key) == value::map_get(op, key));
    let k6 = match pa.body {
        Some(schema) => value::vmap_insert(
            k5,
            vs("requestBody"@),
            request_body(
                str_or(first_str(value::map_get(op, "consumes"@)), dc),
                rewrite_defs(schema),
            ),
        ),
        None => if pa.form_props.len() > 0 {
            value::vmap_insert(k5, vs("requestBody"@), request_body("multipart/form-data"@, form_schema(pa)))
        } else {
            k5
        },
    };
    match pa.body {
        Some(schema) => value::lemma_get_after_insert(
            k5,
            "requestBody"@,
            request_body(str_or(first_str(value::map_get(op, "consumes"@)), dc), rewrite_defs(schema)),
            key,
        ),
        None => if pa.form_props.len() > 0 {
            value::lemma_get_after_insert(
                k5,
                "requestBody"@,
                request_body("multipart/form-data"@, form_schema(pa)),
                key,
            );
        },
    }
    assert(value::map_get(k6, key) == value::map_get(op, key));
    match value::opt_map(value::map_get(op, "responses"@)) {
        Some(rs) => value::lemma_get_after_insert(
            k6,
            "responses"@,
            ValueV::Mapping(responses_v3(rs, str_or(first_str(value::map_get(op, "produces"@)), dp))),
            key,
        ),
        None => {},
    }
}

/// A Swagger body parameter becomes the OpenAPI request body: for an
/// operation whose one parameter is `in: body` with schema `sc` and which
/// names no `consumes`, the converted operation has the request body
/// `{content: {<default consumes>: {schema: sc with its refs rewritten}}}`
/// and no `parameters` left.
pub proof fn law_body_parameter_becomes_request_body(
    op: Seq<(ValueV, ValueV)>,
    dc: Seq<char>,
    dp: Seq<char>,
    pm: Seq<(ValueV, ValueV)>,
    sc: ValueV,
)
    requires
        value::map_get(op, "parameters"@) == Some(ValueV::Sequence(seq![ValueV::Mapping(pm)])),
        value::map_get(pm, "in"@) == Some(vs("body"@)),
        value::map_get(pm, "schema"@) == Some(sc),
        value::map_get(op, "consumes"@) is None,
    ensures
        value::spec_get(operation_v3(op, dc, dp), "requestBody"@) == Some(
            ValueV::Mapping(
                seq![(vs("content"@), ValueV::Mapping(seq![(vs(dc), ValueV::Mapping(seq![(vs("schema"@), rewrite_defs(sc))]))]))],
            ),
        ),
        value::spec_get(operation_v3(op, dc, dp), "parameters"@) is None,
{
    reveal_strlit("summary");
    reveal_strlit("description");
    reveal_strlit("operationId");
    reveal_strlit("tags");
    reveal_strlit("deprecated");
    reveal_strlit("parameters");
    reveal_strlit("requestBody");
    reveal_strlit("responses");
    reveal_strlit("body");
    reveal_strlit("formData");
    assert("summary"@[0] == 's' && "description"@[0] == 'd' && "operationId"@[0] == 'o');
    assert("tags"@[0] == 't' && "deprecated"@[0] == 'd' && "parameters"@[0] == 'p');
    assert("requestBody"@[2] == 'q' && "responses"@[2] == 's' && "requestBody"@[0] == 'r');
    assert("body"@.len() == 4 && "formData"@.len() == 8);
    let ps = seq![ValueV::Mapping(pm)];
    assert(ps.drop_last() =~= Seq::<ValueV>::empty());
    let pa = fold_params(ps);
    assert(pa.body == Some(sc) && pa.params.len() == 0);
    let n0 = copy_key(seq![], op, "summary"@);
    let n1 = copy_key(n0, op, "description"@);
    let n2 = copy_key(n1, op, "operationId"@);
    let n3 = copy_key(n2, op, "tags"@);
    let n4 = copy_key(n3, op, "deprecated"@);
    let q = "parameters"@;
    lemma_get_after_copy(seq![], op, "summary"@, q);
    lemma_get_after_copy(n0, op, "description"@, q);
    lemma_get_after_copy(n1, op, "operationId"@, q);
    lemma_get_after_copy(n2, op, "tags"@, q);
    lemma_get_after_copy(n3, op, "deprecated"@, q);
    assert(value::map_get(Seq::<(ValueV, ValueV)>::empty(), q) is None);
    let body = request_body(str_or(first_str(value::map_get(op, "consumes"@)), dc), rewrite_defs(sc));
    assert(str_or(first_str(value::map_get(op, "consumes"@)), dc) == dc);
    let e: Seq<(ValueV, ValueV)> = seq![];
    assert(value::vmap_insert(e, vs("schema"@), rewrite_defs(sc)) =~= seq![(vs("schema"@), rewrite_defs(sc))]);
    assert(value::vmap_insert(
        e,
        vs(dc),
        ValueV::Mapping(seq![(vs("schema"@), rewrite_defs(sc))]),
    ) =~= seq![(vs(dc), ValueV::Mapping(seq![(vs("schema"@), rewrite_defs(sc))]))]);
    assert(value::vmap_insert(
        e,
        vs("content"@),
        ValueV::Mapping(seq![(vs(dc), ValueV::Mapping(seq![(vs("schema"@), rewrite_defs(sc))]))]),
    ) =~= seq![(vs("content"@), ValueV::Mapping(seq![(vs(dc), ValueV::Mapping(seq![(vs("schema"@), rewrite_defs(sc))]))]))]);
    let n6 = value::vmap_insert(n4, vs("requestBody"@), body);
    value::lemma_get_after_insert(n4, "requestBody"@, body, "requestBody"@);
    value::lemma_get_after_insert(n4, "requestBody"@, body, q);
    match value::opt_map(value::map_get(op, "responses"@)) {
        Some(rs) => {
            let rv = ValueV::Mapping(responses_v3(rs, str_or(first_str(value::map_get(op, "produces"@)), dp)));
            value::lemma_get_after_insert(n6, "responses"@, rv, "requestBody"@);
            value::lemma_get_after_insert(n6, "responses"@, rv, q);
        },
        None => {},
    }
}

/// A converted document keeps the Swagger `info` as it is, and its one
/// server URL is the first scheme (`https` when none), `://`, the host
/// (`localhost` when none) and the base path (empty when none).
pub proof fn law_document_info_and_server(m: Seq<(ValueV, ValueV)>)
    ensures
        value::spec_get(document_v3(m), "info"@) == value::map_get(m, "info"@),
        ({
            let host = match value::opt_str(value::map_get(m, "host"@)) {
                Some(h) => h,
                None => "localhost"@,
            };
            let base = match value::opt_str(value::map_get(m, "basePath"@)) {
                Some(b) => b,
                None => Seq::<char>::empty(),
            };
            let scheme = match first_str(value::map_get(m, "schemes"@)) {
                Some(x) => x,
                None => "https"@,
            };
            value::spec_get(document_v3(m), "servers"@) == Some(
                ValueV::Sequence(seq![ValueV::Mapping(seq![(vs("url"@), vs(scheme + "://"@ + host + base))])]),
            )
        }),
{
    reveal_strlit("openapi");
    reveal_strlit("info");
    reveal_strlit("servers");
    reveal_strlit("paths");
    reveal_strlit("components");
    reveal_strlit("");
    assert("info"@[0] == 'i' && "openapi"@[0] == 'o' && "servers"@[0] == 's' && "paths"@[0] == 'p'
        && "components"@[0] == 'c');
    let r1 = single("openapi"@, vs("3.0.0"@));
    value::lemma_get_after_insert(seq![], "openapi"@, vs("3.0.0"@), "info"@);
    value::lemma_get_after_insert(seq![], "openapi"@, vs("3.0.0"@), "servers"@);
    assert(value::map_get(Seq::<(ValueV, ValueV)>::empty(), "info"@) is None);
    assert(value::map_get(Seq::<(ValueV, ValueV)>::empty(), "servers"@) is None);
    lemma_get_after_copy(r1, m, "info"@, "info"@);
    lemma_get_after_copy(r1, m, "info"@, "servers"@);
    let r2 = copy_key(r1, m, "info"@);
    let host = str_or(value::opt_str(value::map_get(m, "host"@)), "localhost"@);
    let base_path = str_or(value::opt_str(value::map_get(m, "basePath"@)), ""@);
    let scheme = str_or(first_str(value::map_get(m, "schemes"@)), "https"@);
    assert(""@ =~= Seq::<char>::empty());
    let url = scheme + "://"@ + host + base_path;
    let e: Seq<(ValueV, ValueV)> = seq![];
    assert(single("url"@, vs(url)) =~= seq![(vs("url"@), vs(url))]) by {
        assert(value::vmap_insert(e, vs("url"@), vs(url)) =~= seq![(vs("url"@), vs(url))]);
    }
    let sv = ValueV::Sequence(seq![ValueV::Mapping(single("url"@, vs(url)))]);
    value::lemma_get_after_insert(r2, "servers"@, sv, "info"@);
    value::lemma_get_after_insert(r2, "servers"@, sv, "servers"@);
    let r3 = value::vmap_insert(r2, vs("servers"@), sv);
    let dc = str_or(first_str(value::map_get(m, "consumes"@)), "application/json"@);
    let dp = str_or(first_str(value::map_get(m, "produces"@)), "application/json"@);
    let pv = match value::opt_map(value::map_get(m, "paths"@)) {
        Some(paths) => ValueV::Mapping(paths_v3(paths, dc, dp)),
        None => ValueV::Mapping(seq![]),
    };
    value::lemma_get_after_insert(r3, "paths"@, pv, "info"@);
    value::lemma_get_after_insert(r3, "paths"@, pv, "servers"@);
    let r4 = value::vmap_insert(r3, vs("paths"@), pv);
    let c1 = match value::opt_map(value::map_get(m, "definitions"@)) {
        Some(defs) => single("schemas"@, ValueV::Mapping(definitions_v3(defs))),
        None => seq![],
    };
    let c2 = match value::opt_map(value::map_get(m, "parameters"@)) {
        Some(ps) => value::vmap_insert(c1, vs("parameters"@), ValueV::Mapping(ps)),
        None => c1,
    };
    value::lemma_get_after_insert(r4, "components"@, ValueV::Mapping(c2), "info"@);
    value::lemma_get_after_insert(r4, "components"@, ValueV::Mapping(c2), "servers"@);
}

/// A Swagger response as OpenAPI 3 keeps its description (empty when it has
/// none), and its schema, refs rewritten, moves to
/// `content.<produces>.schema`; a response without a schema has no content.
pub proof fn law_response_moves_schema(rm: Seq<(ValueV, ValueV)>, produces: Seq<char>)
    ensures
        value::spec_get(response_v3(rm, produces), "description"@) == Some(
            match value::map_get(rm, "description"@) {
                Some(d) => d,
                None => vs(Seq::<char>::empty()),
            },
        ),
        value::map_get(rm, "schema"@) matches Some(sc) ==> value::spec_get(response_v3(rm, produces), "content"@)
            == Some(ValueV::Mapping(seq![(vs(produces), ValueV::Mapping(seq![(vs("schema"@), rewrite_defs(sc))]))])),
        value::map_get(rm, "schema"@) is None ==> value::spec_get(response_v3(rm, produces), "content"@) is None,
{
    reveal_strlit("description");
    reveal_strlit("content");
    reveal_strlit("");
    assert("description"@[0] == 'd' && "content"@[0] == 'c');
    assert(""@ =~= Seq::<char>::empty());
    let desc = match value::map_get(rm, "description"@) {
        Some(d) => d,
        None => vs(""@),
    };
    let e: Seq<(ValueV, ValueV)> = seq![];
    value::lemma_get_after_insert(e, "description"@, desc, "description"@);
    value::lemma_get_after_insert(e, "description"@, desc, "content"@);
    assert(value::map_get(e, "content"@) is None);
    let r1 = single("description"@, desc);
    match value::map_get(rm, "schema"@) {
        Some(sc) => {
            let inner = ValueV::Mapping(single("schema"@, rewrite_defs(sc)));
            assert(single("schema"@, rewrite_defs(sc)) =~= seq![(vs("schema"@), rewrite_defs(sc))]);
            assert(single(produces, inner) =~= seq![(vs(produces), inner)]);
            let cv = ValueV::Mapping(single(produces, inner));
            value::lemma_get_after_insert(r1, "content"@, cv, "description"@);
            value::lemma_get_after_insert(r1, "content"@, cv, "content"@);
        },
        None => {},
    }
}

} // verus!
