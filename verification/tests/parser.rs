use oa_forge::openapi::{Components, Info, OpenApiSpec, SchemaOrRef};
use oa_forge::parser::{ParseError, check_version, external_target, is_swagger2, merge_external_components};
use oa_forge::value::Value;

fn spec(version: &str, title: &str) -> OpenApiSpec {
    OpenApiSpec {
        openapi: version.to_string(),
        info: Info { title: title.to_string(), version: "1.0.0".to_string(), description: None },
        paths: Vec::new(),
        components: None,
    }
}

#[test]
fn parse_petstore_version() {
    let spec = check_version(spec("3.0.3", "Petstore")).ok().unwrap();
    assert_eq!(spec.openapi, "3.0.3");
    assert_eq!(spec.info.title, "Petstore");
}

#[test]
fn reject_unsupported_version() {
    assert!(check_version(spec("2.0", "Old")).is_err());
    match check_version(spec("4.0", "New")) {
        Err(ParseError::UnsupportedVersion(v)) => assert_eq!(v, "4.0"),
        _ => panic!("expected UnsupportedVersion"),
    }
    assert!(check_version(spec("3.1.0", "Now")).is_ok());
}

#[test]
fn swagger_documents_are_detected() {
    let doc = |v: Value| Value::Mapping(vec![(Value::String("swagger".to_string()), v)]);
    assert!(is_swagger2(&doc(Value::String("2.0".to_string()))));
    assert!(!is_swagger2(&doc(Value::String("3.0".to_string()))));
    assert!(!is_swagger2(&doc(Value::Bool(true))));
    assert!(!is_swagger2(&Value::Null));
}

#[test]
fn external_ref_targets() {
    assert_eq!(
        external_target("./models.yaml#/components/schemas/Pet"),
        Some(("./models.yaml".to_string(), "/components/schemas/Pet".to_string()))
    );
    assert_eq!(external_target("#/components/schemas/Pet"), None);
    assert_eq!(external_target("models.yaml"), None);
    assert_eq!(external_target("https://x.io/a.yaml#/b"), None);
}

fn named(n: &str) -> (String, SchemaOrRef) {
    (n.to_string(), SchemaOrRef::Ref { ref_path: format!("#/components/schemas/{n}x") })
}

#[test]
fn external_components_merge_without_overwriting() {
    let mut s = spec("3.0.3", "T");
    s.components = Some(Components {
        schemas: vec![named("Pet")],
        parameters: Vec::new(),
        request_bodies: Vec::new(),
        responses: Vec::new(),
    });
    merge_external_components(
        &mut s,
        Some(Components {
            schemas: vec![named("Owner"), (
                "Pet".to_string(),
                SchemaOrRef::Ref { ref_path: "other".to_string() },
            )],
            parameters: Vec::new(),
            request_bodies: Vec::new(),
            responses: Vec::new(),
        }),
    );
    let c = s.components.unwrap();
    let names: Vec<&str> = c.schemas.iter().map(|(n, _)| n.as_str()).collect();
    assert_eq!(names, vec!["Pet", "Owner"]);
    match &c.schemas[0].1 {
        SchemaOrRef::Ref { ref_path } => assert_eq!(ref_path, "#/components/schemas/Petx"),
        _ => panic!("unexpected schema"),
    }

    let mut bare = spec("3.0.3", "T");
    merge_external_components(
        &mut bare,
        Some(Components {
            schemas: vec![named("A")],
            parameters: Vec::new(),
            request_bodies: Vec::new(),
            responses: Vec::new(),
        }),
    );
    assert_eq!(bare.components.unwrap().schemas.len(), 1);
}
