use oa_forge::generate::{
    EndpointOverride, apply_header, apply_overrides, compute_relative_import, default_header,
    hash_matches, hash_record, hash_text, normalize_import, spec_unchanged, validate_spec,
};
use oa_forge::ir::{ApiSpec, ContentType, Endpoint, HttpMethod, ResponseType};
use oa_forge::openapi::{Info, OpenApiSpec, Operation, PathItem};

#[test]
fn compute_relative_import_basic() {
    let result = compute_relative_import("./src/api", "./src/custom-client.ts");
    assert_eq!(result, "../custom-client");
}

#[test]
fn compute_relative_import_same_dir() {
    let result = compute_relative_import("./src/api", "./src/api/client.ts");
    assert_eq!(result, "./client");
}

#[test]
fn compute_relative_import_deep() {
    let result = compute_relative_import("./src/api/endpoints", "./lib/custom-client.mts");
    assert_eq!(result, "../../../lib/custom-client");
}

const PETSTORE: &str = "openapi: \"3.0.3\"\ninfo:\n  title: Petstore\n  version: \"1.0.0\"\npaths:\n  /pets:\n    get:\n      operationId: listPets\n      responses:\n        \"200\":\n          description: ok\n";

#[test]
fn spec_content_hash_changes_on_modification() {
    let yaml1 = PETSTORE;
    let yaml2 = PETSTORE;
    assert_eq!(hash_record(yaml1), hash_record(yaml2), "same content should produce same hash");
    assert_ne!(
        hash_record(yaml1),
        hash_record("different content"),
        "different content should produce different hash"
    );
}

#[test]
fn recorded_hash_is_recognised_after_trimming() {
    let rec = hash_record(PETSTORE);
    assert!(rec.chars().all(|c| c.is_ascii_digit()));
    assert!(spec_unchanged(&format!("{rec}\n"), PETSTORE));
    assert!(!spec_unchanged(&rec, "changed"));
    assert_eq!(hash_text(0), "0");
    assert_eq!(hash_text(1234567890), "1234567890");
    assert_eq!(hash_text(u64::MAX), "18446744073709551615");
    assert!(hash_matches("  42 \n", 42));
    assert!(!hash_matches("42", 43));
}

#[test]
fn header_replaces_the_first_generated_line() {
    let content = "// Generated by oa-forge. Do not edit.\nexport {};\n// Generated by oa-forge. Do not edit.\n";
    assert_eq!(
        apply_header(content, "/* mine */"),
        "/* mine */\nexport {};\n// Generated by oa-forge. Do not edit.\n"
    );
    assert_eq!(apply_header("export {};\n", "/* mine */"), "export {};\n");
    assert_eq!(
        default_header(),
        "/* eslint-disable */\n// Generated by oa-forge. Do not edit."
    );
}

#[test]
fn import_paths_are_normalized() {
    assert_eq!(normalize_import(Some("a\\b\\c.ts"), "x"), "./a/b/c");
    assert_eq!(normalize_import(Some("../lib/c.mts"), "x"), "../lib/c");
    assert_eq!(normalize_import(None, "/abs/client.ts"), ".//abs/client");
    assert_eq!(normalize_import(Some("./same"), "x"), "./same");
}

fn operation(id: Option<&str>) -> Operation {
    Operation {
        operation_id: id.map(|s| s.to_string()),
        summary: None,
        tags: Vec::new(),
        parameters: Vec::new(),
        request_body: None,
        responses: Vec::new(),
    }
}

fn path_item(get: Option<Operation>, delete: Option<Operation>) -> PathItem {
    PathItem { get, post: None, put: None, patch: None, delete, parameters: Vec::new() }
}

#[test]
fn missing_operation_ids_are_warned_with_method_and_path() {
    let spec = OpenApiSpec {
        openapi: "3.0.3".to_string(),
        info: Info { title: "T".to_string(), version: "1".to_string(), description: None },
        paths: vec![
            ("/pets".to_string(), path_item(Some(operation(None)), Some(operation(Some("del"))))),
            ("/users".to_string(), path_item(None, Some(operation(None)))),
        ],
        components: None,
    };
    assert_eq!(
        validate_spec(&spec),
        vec![
            "warn: missing operationId for get /pets",
            "warn: missing operationId for delete /users",
        ]
    );
}

fn endpoint(method: HttpMethod, path: &str, id: &str) -> Endpoint {
    Endpoint {
        path: path.to_string(),
        method,
        operation_id: id.to_string(),
        summary: None,
        tags: Vec::new(),
        parameters: Vec::new(),
        request_body: None,
        request_content_type: ContentType::Empty,
        response: None,
        response_type: ResponseType::Void,
        error_response: None,
    }
}

#[test]
fn overrides_skip_and_rename_endpoints() {
    let mut api = ApiSpec {
        types: Vec::new(),
        endpoints: vec![
            endpoint(HttpMethod::Get, "/pets", "listPets"),
            endpoint(HttpMethod::Delete, "/pets/{petId}", "deletePet"),
            endpoint(HttpMethod::Get, "/pets/{petId}", "getPet"),
        ],
    };
    let overrides = vec![
        (
            "DELETE /pets/{petId}".to_string(),
            EndpointOverride { operation_id: None, skip: true },
        ),
        (
            "GET /pets/{petId}".to_string(),
            EndpointOverride { operation_id: Some("fetchPet".to_string()), skip: false },
        ),
        (
            "GET /missing".to_string(),
            EndpointOverride { operation_id: None, skip: true },
        ),
    ];
    let skipped = apply_overrides(&mut api, &overrides);
    assert_eq!(skipped, vec!["DELETE /pets/{petId}"]);
    let ids: Vec<&str> = api.endpoints.iter().map(|e| e.operation_id.as_str()).collect();
    assert_eq!(ids, vec!["listPets", "fetchPet"]);
}
