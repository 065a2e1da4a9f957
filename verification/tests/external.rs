use oa_forge::external::{ResolveStep, apply_resolve_step, next_resolve_step};
use oa_forge::openapi::{
    Components, Info, OpenApiSpec, Operation, PathItem, ResponseOrRef, Schema, SchemaOrRef,
};
use oa_forge::refs::collect_external_refs;

fn schema() -> Schema {
    Schema {
        schema_type: None,
        format: None,
        properties: Vec::new(),
        required: Vec::new(),
        items: None,
        prefix_items: None,
        enum_values: Vec::new(),
        all_of: None,
        one_of: None,
        any_of: None,
        discriminator: None,
        additional_properties: None,
        nullable: false,
        read_only: false,
        description: None,
        default: None,
        min_length: None,
        max_length: None,
        pattern: None,
        minimum: None,
        maximum: None,
        exclusive_minimum: None,
        exclusive_maximum: None,
        multiple_of: None,
        min_items: None,
        max_items: None,
        defs: None,
    }
}

fn reference(p: &str) -> SchemaOrRef {
    SchemaOrRef::Ref { ref_path: p.to_string() }
}

fn components(schemas: Vec<(&str, SchemaOrRef)>) -> Components {
    Components {
        schemas: schemas.into_iter().map(|(k, v)| (k.to_string(), v)).collect(),
        parameters: Vec::new(),
        request_bodies: Vec::new(),
        responses: Vec::new(),
    }
}

fn document() -> OpenApiSpec {
    let mut pet = schema();
    pet.properties = vec![
        ("owner".to_string(), reference("./models.yaml#/components/schemas/Owner")),
        ("tag".to_string(), reference("./tags.yaml#/components/schemas/Tag")),
        ("site".to_string(), reference("https://example.com/x.yaml#/S")),
        ("whole".to_string(), reference("./whole.yaml")),
    ];
    OpenApiSpec {
        openapi: "3.0.3".to_string(),
        info: Info { title: "T".to_string(), version: "1".to_string(), description: None },
        paths: vec![(
            "/pets".to_string(),
            PathItem {
                get: Some(Operation {
                    operation_id: Some("list".to_string()),
                    summary: None,
                    tags: Vec::new(),
                    parameters: Vec::new(),
                    request_body: None,
                    responses: vec![(
                        "200".to_string(),
                        ResponseOrRef::Ref { ref_path: "./models.yaml#/components/responses/Ok".to_string() },
                    )],
                }),
                post: None,
                put: None,
                patch: None,
                delete: None,
                parameters: Vec::new(),
            },
        )],
        components: Some(components(vec![("Pet", SchemaOrRef::Schema(Box::new(pet)))])),
    }
}

fn load(step: ResolveStep) -> (String, String) {
    match step {
        ResolveStep::Load { file_part, pointer_part } => (file_part, pointer_part),
        ResolveStep::Done => panic!("expected a file to load"),
    }
}

#[test]
fn steps_load_each_file_once_and_then_stop() {
    let mut spec = document();
    let mut done: Vec<String> = Vec::new();
    let (f, p) = load(next_resolve_step(&spec, &done));
    assert_eq!(f, "./models.yaml");
    assert_eq!(p, "/components/responses/Ok");
    done.push(f.clone());
    let owner = schema();
    apply_resolve_step(&mut spec, &f, &p, Some(components(vec![("Owner", SchemaOrRef::Schema(Box::new(owner)))])));
    let names: Vec<&str> =
        spec.components.as_ref().unwrap().schemas.iter().map(|(k, _)| k.as_str()).collect();
    assert_eq!(names, vec!["Pet", "Owner"]);
    assert!(!collect_external_refs(&spec).iter().any(|r| r.starts_with("./models.yaml")));

    let (f2, _) = load(next_resolve_step(&spec, &done));
    assert_eq!(f2, "./tags.yaml");
    done.push(f2);
    // the URL ref and the ref without a fragment are never loaded
    assert!(matches!(next_resolve_step(&spec, &done), ResolveStep::Done));
    assert_eq!(
        collect_external_refs(&spec),
        vec!["./tags.yaml#/components/schemas/Tag", "./whole.yaml", "https://example.com/x.yaml#/S"]
    );
}

#[test]
fn a_file_already_looked_at_is_skipped() {
    let spec = document();
    let done = vec!["./models.yaml".to_string()];
    let (f, p) = load(next_resolve_step(&spec, &done));
    assert_eq!((f.as_str(), p.as_str()), ("./tags.yaml", "/components/schemas/Tag"));
}
