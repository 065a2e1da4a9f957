use oa_forge::convert::convert;
use oa_forge::ir::{
    ArrayStyle, ContentType, HttpMethod, ParamLocation, PrimitiveType, ResponseType, TypeRepr,
};
use oa_forge::openapi::{
    AdditionalProperties, Components, Info, MediaType, OpenApiSpec, Operation, Parameter, ParameterOrRef, PathItem,
    RequestBody, RequestBodyOrRef, Response, ResponseOrRef, Schema, SchemaOrRef, SchemaType,
};
use oa_forge::swagger2::convert_to_openapi3;
use oa_forge::value::Value;

fn schema() -> Schema {
    Schema {
        schema_type: None,
        format: None,
        properties: Vec::new(),
        required: Vec::new(),
        items: None,
        prefix_items: None,
        enum_values: Vec::new(),
        all_of: None,
        one_of: None,
        any_of: None,
        discriminator: None,
        additional_properties: None,
        nullable: false,
        read_only: false,
        description: None,
        default: None,
        min_length: None,
        max_length: None,
        pattern: None,
        minimum: None,
        maximum: None,
        exclusive_minimum: None,
        exclusive_maximum: None,
        multiple_of: None,
        min_items: None,
        max_items: None,
        defs: None,
    }
}

fn typed(t: &str) -> Schema {
    let mut s = schema();
    s.schema_type = Some(SchemaType::Single(t.to_string()));
    s
}

fn inline(s: Schema) -> SchemaOrRef {
    SchemaOrRef::Schema(Box::new(s))
}

fn reference(p: &str) -> SchemaOrRef {
    SchemaOrRef::Ref { ref_path: p.to_string() }
}

fn doc(schemas: Vec<(&str, SchemaOrRef)>, paths: Vec<(&str, PathItem)>) -> OpenApiSpec {
    OpenApiSpec {
        openapi: "3.0.3".to_string(),
        info: Info { title: "T".to_string(), version: "1".to_string(), description: None },
        paths: paths.into_iter().map(|(k, v)| (k.to_string(), v)).collect(),
        components: Some(Components {
            schemas: schemas.into_iter().map(|(k, v)| (k.to_string(), v)).collect(),
            parameters: Vec::new(),
            request_bodies: Vec::new(),
            responses: Vec::new(),
        }),
    }
}

fn get_op(id: Option<&str>) -> Operation {
    let content = vec![(
        "application/json".to_string(),
        MediaType { schema: Some(reference("#/components/schemas/Pet")) },
    )];
    Operation {
        operation_id: id.map(|s| s.to_string()),
        summary: None,
        tags: vec!["pets".to_string()],
        parameters: vec![ParameterOrRef::Parameter(Parameter {
            name: "petId".to_string(),
            location: "path".to_string(),
            required: true,
            schema: Some(inline(typed("integer"))),
            description: None,
            style: None,
            explode: None,
        })],
        request_body: None,
        responses: vec![(
            "200".to_string(),
            ResponseOrRef::Response(Response { description: None, content: Some(content) }),
        )],
    }
}

fn item(op: Operation) -> PathItem {
    PathItem { get: Some(op), post: None, put: None, patch: None, delete: None, parameters: Vec::new() }
}

#[test]
fn converts_schemas_and_endpoints() {
    let mut pet = typed("object");
    pet.properties = vec![
        ("id".to_string(), inline(typed("integer"))),
        ("name".to_string(), inline(typed("string"))),
    ];
    pet.required = vec!["id".to_string()];
    let spec = doc(
        vec![("Pet", inline(pet))],
        vec![("/pets/{petId}", item(get_op(Some("getPet")))), ("/other", item(get_op(None)))],
    );
    let api = convert(&spec).ok().unwrap();
    assert_eq!(api.types.len(), 1);
    assert_eq!(api.types[0].0, "Pet");
    match &api.types[0].1.repr {
        TypeRepr::Object { properties } => {
            assert_eq!(properties.len(), 2);
            assert!(properties[0].1.required);
            assert!(!properties[1].1.required);
            assert!(matches!(properties[1].1.repr, TypeRepr::Primitive(PrimitiveType::String)));
        }
        _ => panic!("expected an object"),
    }
    assert_eq!(api.endpoints.len(), 2);
    let e = &api.endpoints[0];
    assert_eq!(e.operation_id, "getPet");
    assert!(matches!(e.method, HttpMethod::Get));
    assert_eq!(e.parameters.len(), 1);
    assert!(matches!(e.parameters[0].location, ParamLocation::Path));
    assert!(matches!(&e.response, Some(TypeRepr::Ref { name }) if name == "Pet"));
    assert!(matches!(e.response_type, ResponseType::Json));
    assert!(matches!(e.request_content_type, ContentType::Empty));
    assert_eq!(api.endpoints[1].operation_id, "Get__other");
}

#[test]
fn all_of_merges_members_and_required() {
    let mut base = typed("object");
    base.properties = vec![("id".to_string(), inline(typed("integer")))];
    base.required = vec!["id".to_string()];
    let mut extra = typed("object");
    extra.properties = vec![("tag".to_string(), inline(typed("string")))];
    let mut combined = schema();
    combined.all_of = Some(vec![reference("#/components/schemas/Base"), inline(extra)]);
    combined.required = vec!["tag".to_string()];
    let spec = doc(vec![("Base", inline(base)), ("Combined", inline(combined))], Vec::new());
    let api = convert(&spec).ok().unwrap();
    match &api.types[1].1.repr {
        TypeRepr::Object { properties } => {
            let names: Vec<(&str, bool)> =
                properties.iter().map(|(n, p)| (n.as_str(), p.required)).collect();
            assert_eq!(names, vec![("id", true), ("tag", true)]);
        }
        _ => panic!("expected an object"),
    }
}

fn only_again(r: &TypeRepr) -> Option<&TypeRepr> {
    match r {
        TypeRepr::Object { properties } if properties.len() == 1 && properties[0].0 == "again" => {
            Some(&properties[0].1.repr)
        }
        _ => None,
    }
}

#[test]
fn a_cycle_through_all_of_is_cut_where_it_closes() {
    let mut looped = schema();
    let mut prop = schema();
    prop.all_of = Some(vec![reference("#/components/schemas/Loop")]);
    looped.properties = vec![("again".to_string(), inline(prop))];
    let mut outer = schema();
    outer.all_of = Some(vec![reference("#/components/schemas/Loop")]);
    let cyclic = doc(vec![("Loop", inline(looped)), ("Outer", inline(outer))], Vec::new());
    let api = convert(&cyclic).ok().unwrap();
    let empty = |r: &TypeRepr| matches!(r, TypeRepr::Object { properties } if properties.is_empty());
    let inner = only_again(&api.types[0].1.repr).expect("Loop holds again");
    let innermost = only_again(inner).expect("the expanded Loop holds again");
    assert!(empty(innermost));
    let outer_again = only_again(&api.types[1].1.repr).expect("Outer holds again");
    assert!(empty(outer_again));
}

#[test]
fn a_ref_member_offering_a_choice_stays_a_named_reference() {
    let mut x = schema();
    x.all_of = Some(vec![reference("#/components/schemas/X")]);
    x.one_of = Some(vec![reference("#/components/schemas/A"), reference("#/components/schemas/B")]);
    let spec = doc(
        vec![("X", inline(x)), ("A", inline(typed("string"))), ("B", inline(typed("integer")))],
        Vec::new(),
    );
    let api = convert(&spec).ok().unwrap();
    match &api.types[0].1.repr {
        TypeRepr::Intersection { members } => {
            assert_eq!(members.len(), 2);
            assert!(matches!(&members[0], TypeRepr::Object { properties } if properties.is_empty()));
            assert!(matches!(&members[1], TypeRepr::Ref { name } if name == "X"));
        }
        other => panic!("expected an intersection, got {other:?}"),
    }
}

fn op(id: &str) -> Operation {
    Operation {
        operation_id: Some(id.to_string()),
        summary: None,
        tags: Vec::new(),
        parameters: Vec::new(),
        request_body: None,
        responses: Vec::new(),
    }
}

fn object_with(props: Vec<(&str, Schema)>, required: Vec<&str>) -> Schema {
    let mut s = typed("object");
    s.properties = props.into_iter().map(|(k, v)| (k.to_string(), inline(v))).collect();
    s.required = required.into_iter().map(|r| r.to_string()).collect();
    s
}

fn json_response(s: Schema) -> ResponseOrRef {
    ResponseOrRef::Response(Response {
        description: None,
        content: Some(vec![("application/json".to_string(), MediaType { schema: Some(inline(s)) })]),
    })
}

fn media(mt: &str, s: Option<Schema>) -> (String, MediaType) {
    (mt.to_string(), MediaType { schema: s.map(inline) })
}

#[test]
fn multiple_tags_uses_first_tag() {
    let mut o = op("listItems");
    o.tags = vec!["items".to_string(), "inventory".to_string(), "public".to_string()];
    let mut list = typed("array");
    list.items = Some(Box::new(inline(typed("string"))));
    o.responses = vec![("200".to_string(), json_response(list))];
    let spec = doc(Vec::new(), vec![("/items", item(o))]);
    let api = convert(&spec).ok().expect("convert failed");
    let endpoint = &api.endpoints[0];
    assert_eq!(endpoint.tags.len(), 3, "should preserve all tags");
    assert_eq!(endpoint.tags[0], "items", "first tag should be 'items'");
}

#[test]
fn deeply_nested_allof_chain() {
    let base = object_with(vec![("id", typed("string"))], vec!["id"]);
    let mut middle = schema();
    middle.all_of = Some(vec![
        reference("#/components/schemas/Base"),
        inline(object_with(vec![("name", typed("string"))], vec!["name"])),
    ]);
    let mut top = schema();
    top.all_of = Some(vec![
        reference("#/components/schemas/Middle"),
        inline(object_with(vec![("extra", typed("boolean"))], vec![])),
    ]);
    let spec = doc(
        vec![("Base", inline(base)), ("Middle", inline(middle)), ("Top", inline(top))],
        Vec::new(),
    );
    let api = convert(&spec).ok().expect("convert failed");
    let middle = &api.types.iter().find(|(n, _)| n == "Middle").expect("Middle should exist").1;
    match &middle.repr {
        TypeRepr::Object { properties } => {
            assert!(properties.iter().any(|(k, _)| k == "id"), "Middle should have id from Base");
            assert!(properties.iter().any(|(k, _)| k == "name"), "Middle should have own name");
        }
        other => panic!("Middle should be Object, got: {other:?}"),
    }
}

#[test]
fn url_encoded_form_body_fallback() {
    let mut login = op("login");
    let form = object_with(
        vec![("username", typed("string")), ("password", typed("string"))],
        vec!["username", "password"],
    );
    login.request_body = Some(RequestBodyOrRef::RequestBody(RequestBody {
        required: true,
        content: vec![media("application/x-www-form-urlencoded", Some(form))],
        description: None,
    }));
    login.responses =
        vec![("200".to_string(), json_response(object_with(vec![("token", typed("string"))], vec![])))];
    let spec = doc(Vec::new(), vec![("/login", PathItem {
        get: None,
        post: Some(login),
        put: None,
        patch: None,
        delete: None,
        parameters: Vec::new(),
    })]);
    let api = convert(&spec).ok().expect("convert failed");
    let login = api.endpoints.iter().find(|e| e.operation_id == "login").unwrap();
    assert!(
        login.request_content_type == ContentType::Empty,
        "x-www-form-urlencoded falls through to None: {:?}",
        login.request_content_type
    );
}

#[test]
fn response_ref_resolves_correctly() {
    let mut o = op("testRefResponse");
    o.responses = vec![
        ("200".to_string(), ResponseOrRef::Ref {
            ref_path: "#/components/responses/SuccessResponse".to_string(),
        }),
        ("404".to_string(), ResponseOrRef::Ref {
            ref_path: "#/components/responses/NotFoundResponse".to_string(),
        }),
    ];
    let mut spec = doc(Vec::new(), vec![("/test", item(o))]);
    spec.components.as_mut().unwrap().responses = vec![
        (
            "SuccessResponse".to_string(),
            json_response(object_with(vec![("data", typed("string"))], vec![])),
        ),
        (
            "NotFoundResponse".to_string(),
            json_response(object_with(vec![("message", typed("string"))], vec![])),
        ),
    ];
    let api = convert(&spec).ok().expect("convert failed");
    let ep = api.endpoints.iter().find(|e| e.operation_id == "testRefResponse").unwrap();
    assert!(ep.response.is_some(), "should resolve $ref response");
    assert!(ep.error_response.is_some(), "should resolve $ref error response");
}

fn st(s: &str) -> Value {
    Value::String(s.to_string())
}

fn obj(entries: Vec<(&str, Value)>) -> Value {
    Value::Mapping(entries.into_iter().map(|(k, v)| (st(k), v)).collect())
}

fn yaml_schema(v: &Value) -> Schema {
    let mut s = schema();
    if let Value::Mapping(m) = v {
        for (k, x) in m {
            match (k, x) {
                (Value::String(k), Value::String(t)) if k == "type" => {
                    s.schema_type = Some(SchemaType::Single(t.clone()))
                }
                (Value::String(k), Value::String(f)) if k == "format" => s.format = Some(f.clone()),
                (Value::String(k), Value::Sequence(r)) if k == "required" => {
                    s.required = r
                        .iter()
                        .filter_map(|x| if let Value::String(n) = x { Some(n.clone()) } else { None })
                        .collect()
                }
                (Value::String(k), Value::Mapping(ps)) if k == "properties" => {
                    s.properties = ps
                        .iter()
                        .filter_map(|(n, p)| match n {
                            Value::String(n) => Some((n.clone(), inline(yaml_schema(p)))),
                            _ => None,
                        })
                        .collect()
                }
                _ => {}
            }
        }
    }
    s
}

fn get_in<'a>(v: &'a Value, key: &str) -> Option<&'a Value> {
    match v {
        Value::Mapping(m) => m
            .iter()
            .find(|(k, _)| matches!(k, Value::String(s) if s == key))
            .map(|(_, x)| x),
        _ => None,
    }
}

#[test]
fn swagger2_formdata_converts_to_request_body() {
    let form_file = obj(vec![
        ("name", st("file")),
        ("in", st("formData")),
        ("type", st("string")),
        ("format", st("binary")),
        ("required", Value::Bool(true)),
    ]);
    let form_label = obj(vec![("name", st("label")), ("in", st("formData")), ("type", st("string"))]);
    let swagger = obj(vec![
        ("swagger", st("2.0")),
        ("info", obj(vec![("title", st("Upload API")), ("version", st("1.0"))])),
        ("host", st("api.example.com")),
        ("basePath", st("/v1")),
        (
            "paths",
            obj(vec![(
                "/upload",
                obj(vec![(
                    "post",
                    obj(vec![
                        ("operationId", st("uploadFile")),
                        ("consumes", Value::Sequence(vec![st("multipart/form-data")])),
                        ("parameters", Value::Sequence(vec![form_file, form_label])),
                        (
                            "responses",
                            obj(vec![(
                                "200",
                                obj(vec![
                                    ("description", st("OK")),
                                    (
                                        "schema",
                                        obj(vec![
                                            ("type", st("object")),
                                            (
                                                "properties",
                                                obj(vec![("id", obj(vec![("type", st("string"))]))]),
                                            ),
                                        ]),
                                    ),
                                ]),
                            )]),
                        ),
                    ]),
                )]),
            )]),
        ),
        ("definitions", obj(vec![])),
    ]);
    let v3 = convert_to_openapi3(swagger).ok().expect("parse failed");
    // Read the converted operation into the document model.
    let post = get_in(get_in(get_in(&v3, "paths").unwrap(), "/upload").unwrap(), "post").unwrap();
    let body = get_in(post, "requestBody").expect("formData should become a requestBody");
    let content = get_in(body, "content").unwrap();
    let mut request_content = Vec::new();
    if let Value::Mapping(m) = content {
        for (k, mt) in m {
            if let Value::String(k) = k {
                request_content.push(media(k, get_in(mt, "schema").map(yaml_schema)));
            }
        }
    }
    let mut upload = op("uploadFile");
    upload.request_body = Some(RequestBodyOrRef::RequestBody(RequestBody {
        required: true,
        content: request_content,
        description: None,
    }));
    let spec = doc(Vec::new(), vec![("/upload", PathItem {
        get: None,
        post: Some(upload),
        put: None,
        patch: None,
        delete: None,
        parameters: Vec::new(),
    })]);
    let api = convert(&spec).ok().expect("convert failed");
    let upload =
        api.endpoints.iter().find(|e| e.operation_id == "uploadFile").expect("uploadFile endpoint should exist");
    assert!(upload.request_body.is_some(), "formData should produce request_body");
    assert_eq!(upload.request_content_type, ContentType::FormData);
}

#[test]
fn request_media_types_in_order_of_preference() {
    let cases: Vec<(Vec<&str>, ContentType)> = vec![
        (vec!["text/plain", "application/json"], ContentType::Json),
        (vec!["text/plain", "multipart/form-data"], ContentType::FormData),
        (vec!["application/octet-stream", "text/plain"], ContentType::TextPlain),
        (vec!["application/octet-stream"], ContentType::OctetStream),
        (vec!["application/xml"], ContentType::Empty),
    ];
    for (types, expected) in cases {
        let mut o = op("send");
        o.request_body = Some(RequestBodyOrRef::RequestBody(RequestBody {
            required: false,
            content: types.iter().map(|t| media(t, Some(typed("string")))).collect(),
            description: None,
        }));
        let spec = doc(Vec::new(), vec![("/send", item(o))]);
        let e = &convert(&spec).ok().unwrap().endpoints[0];
        assert_eq!(e.request_content_type, expected);
        assert_eq!(e.request_body.is_some(), expected != ContentType::Empty);
    }
}

#[test]
fn request_body_ref_is_resolved() {
    let mut o = op("create");
    o.request_body =
        Some(RequestBodyOrRef::Ref { ref_path: "#/components/requestBodies/NewPet".to_string() });
    let mut spec = doc(Vec::new(), vec![("/pets", item(o))]);
    spec.components.as_mut().unwrap().request_bodies = vec![(
        "NewPet".to_string(),
        RequestBodyOrRef::RequestBody(RequestBody {
            required: true,
            content: vec![media("application/json", Some(typed("string")))],
            description: None,
        }),
    )];
    let e = &convert(&spec).ok().unwrap().endpoints[0];
    assert_eq!(e.request_content_type, ContentType::Json);
    assert!(matches!(e.request_body, Some(TypeRepr::Primitive(PrimitiveType::String))));
}

#[test]
fn first_success_and_error_responses_are_picked() {
    let mut o = op("multi");
    o.responses = vec![
        ("default".to_string(), json_response(typed("boolean"))),
        ("400".to_string(), json_response(typed("integer"))),
        ("201".to_string(), json_response(typed("string"))),
        ("200".to_string(), json_response(typed("number"))),
        ("500".to_string(), json_response(typed("boolean"))),
    ];
    let spec = doc(Vec::new(), vec![("/m", item(o))]);
    let e = &convert(&spec).ok().unwrap().endpoints[0];
    assert!(matches!(e.response, Some(TypeRepr::Primitive(PrimitiveType::String))));
    assert_eq!(e.response_type, ResponseType::Json);
    assert!(matches!(e.error_response, Some(TypeRepr::Primitive(PrimitiveType::Integer))));
}

#[test]
fn response_kinds() {
    let kinds: Vec<(Option<Vec<(String, MediaType)>>, ResponseType)> = vec![
        (None, ResponseType::Void),
        (Some(Vec::new()), ResponseType::Void),
        (Some(vec![media("text/html", None)]), ResponseType::Text),
        (Some(vec![media("image/png", None)]), ResponseType::Blob),
        (Some(vec![media("image/png", None), media("application/json", None)]), ResponseType::Json),
    ];
    for (content, expected) in kinds {
        let mut o = op("k");
        o.responses = vec![(
            "204".to_string(),
            ResponseOrRef::Response(Response { description: None, content }),
        )];
        let spec = doc(Vec::new(), vec![("/k", item(o))]);
        let e = &convert(&spec).ok().unwrap().endpoints[0];
        assert_eq!(e.response_type, expected);
        assert!(e.response.is_none());
    }
    let mut only_error = op("onlyErrorResponse");
    only_error.responses = vec![("404".to_string(), json_response(typed("string")))];
    let spec = doc(Vec::new(), vec![("/e", item(only_error))]);
    let e = &convert(&spec).ok().unwrap().endpoints[0];
    assert_eq!(e.response_type, ResponseType::Void);
    assert!(e.response.is_none());
    assert!(e.error_response.is_some());
}

fn query_param(name: &str, s: Schema, style: Option<&str>, explode: Option<bool>) -> ParameterOrRef {
    ParameterOrRef::Parameter(Parameter {
        name: name.to_string(),
        location: "query".to_string(),
        required: false,
        schema: Some(inline(s)),
        description: None,
        style: style.map(|x| x.to_string()),
        explode,
    })
}

#[test]
fn array_query_params_get_a_style_and_refs_resolve() {
    let mut arr = typed("array");
    arr.items = Some(Box::new(inline(typed("string"))));
    let arr2 = {
        let mut a = typed("array");
        a.items = Some(Box::new(inline(typed("string"))));
        a
    };
    let arr3 = {
        let mut a = typed("array");
        a.items = Some(Box::new(inline(typed("string"))));
        a
    };
    let mut o = op("search");
    o.parameters = vec![
        query_param("tags", arr, None, Some(false)),
        query_param("ids", arr2, Some("form"), None),
        query_param("pipes", arr3, Some("pipeDelimited"), Some(false)),
        query_param("q", typed("string"), None, None),
        ParameterOrRef::Ref { ref_path: "#/components/parameters/Limit".to_string() },
        ParameterOrRef::Ref { ref_path: "#/components/parameters/Missing".to_string() },
    ];
    let mut spec = doc(Vec::new(), vec![("/search", item(o))]);
    spec.components.as_mut().unwrap().parameters =
        vec![("Limit".to_string(), query_param("limit", typed("integer"), None, None))];
    let e = &convert(&spec).ok().unwrap().endpoints[0];
    let styles: Vec<(&str, Option<ArrayStyle>)> =
        e.parameters.iter().map(|p| (p.name.as_str(), p.array_style.clone())).collect();
    assert_eq!(
        styles,
        vec![
            ("tags", Some(ArrayStyle::Comma)),
            ("ids", Some(ArrayStyle::Multi)),
            ("pipes", None),
            ("q", None),
            ("limit", None),
        ]
    );
}

#[test]
fn prefix_items_make_a_tuple() {
    let mut pair = typed("array");
    pair.prefix_items = Some(vec![reference("#/components/schemas/Point"), inline(typed("string"))]);
    let point = object_with(vec![("x", typed("number"))], vec![]);
    let spec = doc(vec![("Point", inline(point)), ("Pair", inline(pair))], Vec::new());
    let api = convert(&spec).ok().unwrap();
    match &api.types[1].1.repr {
        TypeRepr::Tuple { items } => {
            assert_eq!(items.len(), 2);
            assert!(matches!(&items[0], TypeRepr::Ref { name } if name == "Point"));
            assert!(matches!(items[1], TypeRepr::Primitive(PrimitiveType::String)));
        }
        other => panic!("expected a tuple, got {other:?}"),
    }
}

#[test]
fn additional_properties_make_a_record() {
    let mut free = typed("object");
    free.additional_properties = Some(AdditionalProperties::Bool(true));
    let mut counts = typed("object");
    counts.additional_properties =
        Some(AdditionalProperties::Schema(Box::new(inline(typed("integer")))));
    let mut strict = object_with(vec![("name", typed("string"))], vec![]);
    strict.additional_properties = Some(AdditionalProperties::Bool(false));
    let mut closed = typed("object");
    closed.additional_properties = Some(AdditionalProperties::Bool(false));
    let spec = doc(
        vec![
            ("Free", inline(free)),
            ("Counts", inline(counts)),
            ("Strict", inline(strict)),
            ("Closed", inline(closed)),
        ],
        Vec::new(),
    );
    let api = convert(&spec).ok().unwrap();
    assert!(matches!(&api.types[0].1.repr, TypeRepr::Record { value } if matches!(**value, TypeRepr::Any)));
    assert!(matches!(
        &api.types[1].1.repr,
        TypeRepr::Record { value } if matches!(**value, TypeRepr::Primitive(PrimitiveType::Integer))
    ));
    assert!(matches!(&api.types[2].1.repr, TypeRepr::Object { properties } if properties.len() == 1));
    assert!(matches!(api.types[3].1.repr, TypeRepr::Any));
}

#[test]
fn all_of_with_one_of_is_an_intersection() {
    let mut choice = schema();
    choice.one_of = Some(vec![inline(object_with(vec![("role", typed("string"))], vec![]))]);
    let mut mixed = schema();
    mixed.all_of = Some(vec![
        inline(object_with(vec![("id", typed("integer"))], vec!["id"])),
        inline(object_with(vec![("name", typed("string"))], vec![])),
        inline(choice),
    ]);
    let spec = doc(vec![("Mixed", inline(mixed))], Vec::new());
    let api = convert(&spec).ok().unwrap();
    match &api.types[0].1.repr {
        TypeRepr::Intersection { members } => {
            assert_eq!(members.len(), 2);
            match &members[0] {
                TypeRepr::Object { properties } => {
                    let names: Vec<(&str, bool)> =
                        properties.iter().map(|(n, p)| (n.as_str(), p.required)).collect();
                    assert_eq!(names, vec![("id", true), ("name", false)]);
                }
                other => panic!("expected the merged object first, got {other:?}"),
            }
            assert!(matches!(&members[1], TypeRepr::Union { variants, .. } if variants.len() == 1));
        }
        other => panic!("expected an intersection, got {other:?}"),
    }
}

#[test]
fn property_and_type_metadata_carry_over() {
    let mut name = typed("string");
    name.description = Some("The pet's name".to_string());
    name.read_only = true;
    name.min_length = Some(1);
    name.max_length = Some(64);
    name.pattern = Some("^[a-z]+$".to_string());
    name.default = Some(Value::String("rex".to_string()));
    let mut weight = typed("number");
    weight.minimum = Some("0.5".to_string());
    weight.multiple_of = Some("0.25".to_string());
    let mut pet = object_with(vec![("name", name), ("weight", weight)], vec!["name"]);
    pet.properties.push(("owner".to_string(), reference("#/components/schemas/Owner")));
    pet.description = Some("A pet".to_string());
    let mut id = typed("string");
    id.format = Some("uuid".to_string());
    let spec = doc(
        vec![("Pet", inline(pet)), ("Id", inline(id)), ("Alias", reference("#/components/schemas/Id"))],
        Vec::new(),
    );
    let api = convert(&spec).ok().unwrap();
    let pet = &api.types[0].1;
    assert_eq!(pet.description.as_deref(), Some("A pet"));
    match &pet.repr {
        TypeRepr::Object { properties } => {
            let name = &properties[0].1;
            assert!(name.read_only);
            assert_eq!(name.description.as_deref(), Some("The pet's name"));
            assert_eq!(name.constraints.min_length, Some(1));
            assert_eq!(name.constraints.max_length, Some(64));
            assert_eq!(name.constraints.pattern.as_deref(), Some("^[a-z]+$"));
            assert!(matches!(&name.default_value, Some(Value::String(s)) if s == "rex"));
            let weight = &properties[1].1;
            assert_eq!(weight.constraints.minimum.as_deref(), Some("0.5"));
            assert_eq!(weight.constraints.multiple_of.as_deref(), Some("0.25"));
            assert!(!weight.read_only);
            let owner = &properties[2].1;
            assert!(owner.description.is_none());
            assert!(owner.constraints.min_length.is_none());
        }
        other => panic!("expected an object, got {other:?}"),
    }
    assert_eq!(api.types[1].1.format.as_deref(), Some("uuid"));
    assert!(api.types[2].1.format.is_none());
}

#[test]
fn null_types_are_nullable() {
    let nothing = typed("null");
    let mut maybe = schema();
    maybe.schema_type = Some(SchemaType::Array(vec!["integer".to_string(), "null".to_string()]));
    let mut empty = schema();
    empty.schema_type = Some(SchemaType::Array(Vec::new()));
    let spec = doc(
        vec![("Nothing", inline(nothing)), ("Maybe", inline(maybe)), ("Empty", inline(empty))],
        Vec::new(),
    );
    let api = convert(&spec).ok().unwrap();
    assert!(matches!(&api.types[0].1.repr, TypeRepr::Nullable(inner) if matches!(**inner, TypeRepr::Any)));
    assert!(matches!(
        &api.types[1].1.repr,
        TypeRepr::Nullable(inner) if matches!(**inner, TypeRepr::Primitive(PrimitiveType::Integer))
    ));
    assert!(matches!(api.types[2].1.repr, TypeRepr::Any));
}
