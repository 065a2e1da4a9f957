use oa_forge::parser::ParseError;
use oa_forge::swagger2::{convert_to_openapi3, rewrite_definition_refs};
use oa_forge::value::{get, Value};

fn st(s: &str) -> Value {
    Value::String(s.to_string())
}

fn obj(entries: Vec<(&str, Value)>) -> Value {
    Value::Mapping(entries.into_iter().map(|(k, v)| (st(k), v)).collect())
}

fn as_str(v: Option<&Value>) -> Option<&str> {
    match v {
        Some(Value::String(s)) => Some(s.as_str()),
        _ => None,
    }
}

#[test]
fn converts_swagger2_definitions_to_components() {
    let swagger = obj(vec![
        ("swagger", st("2.0")),
        ("info", obj(vec![("title", st("Test")), ("version", st("1.0"))])),
        ("host", st("api.example.com")),
        ("basePath", st("/v1")),
        ("paths", obj(vec![])),
        (
            "definitions",
            obj(vec![(
                "Pet",
                obj(vec![
                    ("type", st("object")),
                    ("properties", obj(vec![("name", obj(vec![("type", st("string"))]))])),
                ]),
            )]),
        ),
    ]);

    let openapi = convert_to_openapi3(swagger).ok().unwrap();
    let schemas = get(get(&openapi, "components").unwrap(), "schemas").unwrap();
    assert!(get(schemas, "Pet").is_some());
}

#[test]
fn rewrites_definition_refs() {
    let value = obj(vec![("$ref", st("#/definitions/Pet"))]);
    let rewritten = rewrite_definition_refs(value);
    assert_eq!(as_str(get(&rewritten, "$ref")).unwrap(), "#/components/schemas/Pet");
}

#[test]
fn swagger_document_that_is_not_a_mapping_is_refused() {
    match convert_to_openapi3(st("swagger")) {
        Err(ParseError::UnsupportedVersion(m)) => assert_eq!(m, "invalid swagger document"),
        _ => panic!("expected UnsupportedVersion"),
    }
}

#[test]
fn swagger_server_url_and_defaults() {
    let swagger = obj(vec![
        ("swagger", st("2.0")),
        ("host", st("api.example.com")),
        ("basePath", st("/v1")),
        ("schemes", Value::Sequence(vec![st("http"), st("https")])),
    ]);
    let openapi = convert_to_openapi3(swagger).ok().unwrap();
    assert_eq!(as_str(get(&openapi, "openapi")), Some("3.0.0"));
    let servers = match get(&openapi, "servers") {
        Some(Value::Sequence(s)) => s,
        _ => panic!("servers missing"),
    };
    assert_eq!(as_str(get(&servers[0], "url")), Some("http://api.example.com/v1"));
    assert!(matches!(get(&openapi, "paths"), Some(Value::Mapping(m)) if m.is_empty()));
    assert!(get(&openapi, "components").is_none());

    let bare = convert_to_openapi3(obj(vec![])).ok().unwrap();
    let servers = match get(&bare, "servers") {
        Some(Value::Sequence(s)) => s,
        _ => panic!("servers missing"),
    };
    assert_eq!(as_str(get(&servers[0], "url")), Some("https://localhost"));
}

#[test]
fn swagger_body_and_form_parameters_become_request_bodies() {
    let op_body = obj(vec![
        ("operationId", st("addPet")),
        (
            "parameters",
            Value::Sequence(vec![
                obj(vec![("in", st("query")), ("name", st("q")), ("type", st("string"))]),
                obj(vec![
                    ("in", st("body")),
                    ("name", st("body")),
                    ("schema", obj(vec![("$ref", st("#/definitions/Pet"))])),
                ]),
            ]),
        ),
        (
            "responses",
            obj(vec![(
                "200",
                obj(vec![
                    ("description", st("ok")),
                    ("schema", obj(vec![("$ref", st("#/definitions/Pet"))])),
                ]),
            )]),
        ),
    ]);
    let op_form = obj(vec![(
        "parameters",
        Value::Sequence(vec![
            obj(vec![
                ("in", st("formData")),
                ("name", st("file")),
                ("type", st("file")),
                ("required", Value::Bool(true)),
            ]),
        ]),
    )]);
    let swagger = obj(vec![
        ("swagger", st("2.0")),
        ("consumes", Value::Sequence(vec![st("application/xml")])),
        (
            "paths",
            obj(vec![("/pets", obj(vec![("post", op_body), ("put", op_form)]))]),
        ),
    ]);
    let openapi = convert_to_openapi3(swagger).ok().unwrap();
    let pets = get(get(&openapi, "paths").unwrap(), "/pets").unwrap();
    let post = get(pets, "post").unwrap();
    assert_eq!(as_str(get(post, "operationId")), Some("addPet"));
    match get(post, "parameters") {
        Some(Value::Sequence(ps)) => assert_eq!(ps.len(), 1),
        _ => panic!("parameters missing"),
    }
    let schema = get(
        get(get(get(post, "requestBody").unwrap(), "content").unwrap(), "application/xml").unwrap(),
        "schema",
    )
    .unwrap();
    assert_eq!(as_str(get(schema, "$ref")), Some("#/components/schemas/Pet"));
    let resp = get(get(get(post, "responses").unwrap(), "200").unwrap(), "content").unwrap();
    let resp_schema = get(get(resp, "application/json").unwrap(), "schema").unwrap();
    assert_eq!(as_str(get(resp_schema, "$ref")), Some("#/components/schemas/Pet"));

    let put = get(pets, "put").unwrap();
    let form = get(
        get(get(get(put, "requestBody").unwrap(), "content").unwrap(), "multipart/form-data").unwrap(),
        "schema",
    )
    .unwrap();
    assert_eq!(as_str(get(form, "type")), Some("object"));
    assert!(get(get(form, "properties").unwrap(), "file").is_some());
    match get(form, "required") {
        Some(Value::Sequence(r)) => assert_eq!(as_str(Some(&r[0])), Some("file")),
        _ => panic!("required missing"),
    }
}

#[test]
fn refs_are_rewritten_at_any_depth() {
    let v = Value::Sequence(vec![obj(vec![(
        "items",
        obj(vec![("$ref", st("#/definitions/A#/definitions/B"))]),
    )])]);
    let r = rewrite_definition_refs(v);
    let inner = match &r {
        Value::Sequence(items) => get(get(&items[0], "items").unwrap(), "$ref"),
        _ => None,
    };
    assert_eq!(as_str(inner), Some("#/components/schemas/A#/components/schemas/B"));
}
