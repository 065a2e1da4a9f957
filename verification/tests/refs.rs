use oa_forge::openapi::{
    AdditionalProperties, Components, Info, OpenApiSpec, Operation, ParameterOrRef, PathItem,
    RequestBodyOrRef, ResponseOrRef, Schema, SchemaOrRef,
};
use oa_forge::refs::{
    collect_external_refs, collect_refs_from_schema_or_ref, collect_refs_from_schemas,
    rewrite_refs, rewrite_refs_in_schema_or_ref, rewrite_refs_in_schemas, rewrite_single_ref,
    sorted_unique,
};

fn schema() -> Schema {
    Schema {
        schema_type: None,
        format: None,
        properties: Vec::new(),
        required: Vec::new(),
        items: None,
        prefix_items: None,
        enum_values: Vec::new(),
        all_of: None,
        one_of: None,
        any_of: None,
        discriminator: None,
        additional_properties: None,
        nullable: false,
        read_only: false,
        description: None,
        default: None,
        min_length: None,
        max_length: None,
        pattern: None,
        minimum: None,
        maximum: None,
        exclusive_minimum: None,
        exclusive_maximum: None,
        multiple_of: None,
        min_items: None,
        max_items: None,
        defs: None,
    }
}

fn reference(p: &str) -> SchemaOrRef {
    SchemaOrRef::Ref { ref_path: p.to_string() }
}

fn nested() -> SchemaOrRef {
    let mut s = schema();
    s.properties = vec![
        ("owner".to_string(), reference("./models.yaml#/components/schemas/Owner")),
        ("local".to_string(), reference("#/components/schemas/Local")),
    ];
    s.items = Some(Box::new(reference("./b.yaml#/components/schemas/B")));
    s.any_of = Some(vec![reference("./models.yaml#/components/schemas/Pet")]);
    s.additional_properties =
        Some(AdditionalProperties::Schema(Box::new(reference("./c.yaml#/x"))));
    SchemaOrRef::Schema(Box::new(s))
}

fn ref_paths(s: &SchemaOrRef, out: &mut Vec<String>) {
    match s {
        SchemaOrRef::Ref { ref_path } => out.push(ref_path.clone()),
        SchemaOrRef::Schema(b) => {
            for (_, p) in &b.properties {
                ref_paths(p, out);
            }
            if let Some(i) = &b.items {
                ref_paths(i, out);
            }
            if let Some(l) = &b.any_of {
                for x in l {
                    ref_paths(x, out);
                }
            }
            if let Some(AdditionalProperties::Schema(a)) = &b.additional_properties {
                ref_paths(a, out);
            }
        }
    }
}

#[test]
fn single_refs_become_local() {
    let mut r = "./models.yaml#/components/schemas/Pet".to_string();
    rewrite_single_ref(&mut r, "./models.yaml");
    assert_eq!(r, "#/components/schemas/Pet");
    let mut other = "./other.yaml#/components/schemas/Pet".to_string();
    rewrite_single_ref(&mut other, "./models.yaml");
    assert_eq!(other, "./other.yaml#/components/schemas/Pet");
    let mut no_hash = "./models.yaml".to_string();
    rewrite_single_ref(&mut no_hash, "./models.yaml");
    assert_eq!(no_hash, "./models.yaml");
}

#[test]
fn refs_are_collected_in_traversal_order() {
    let mut refs = vec!["first".to_string()];
    collect_refs_from_schema_or_ref(&nested(), &mut refs);
    assert_eq!(
        refs,
        vec![
            "first",
            "./models.yaml#/components/schemas/Owner",
            "./b.yaml#/components/schemas/B",
            "./models.yaml#/components/schemas/Pet",
            "./c.yaml#/x",
        ]
    );
    let mut from_map = Vec::new();
    collect_refs_from_schemas(&vec![("A".to_string(), nested())], &mut from_map);
    assert_eq!(from_map.len(), 4);
}

#[test]
fn refs_of_one_file_are_rewritten_at_any_depth() {
    let mut s = nested();
    rewrite_refs_in_schema_or_ref(&mut s, "./models.yaml");
    let mut out = Vec::new();
    ref_paths(&s, &mut out);
    assert_eq!(
        out,
        vec![
            "#/components/schemas/Owner",
            "#/components/schemas/Local",
            "./b.yaml#/components/schemas/B",
            "#/components/schemas/Pet",
            "./c.yaml#/x",
        ]
    );
    let mut map = vec![("A".to_string(), nested())];
    rewrite_refs_in_schemas(&mut map, "./b.yaml");
    let mut out = Vec::new();
    ref_paths(&map[0].1, &mut out);
    assert_eq!(out[2], "#/components/schemas/B");
}

fn op() -> Operation {
    Operation {
        operation_id: Some("op".to_string()),
        summary: None,
        tags: Vec::new(),
        parameters: vec![
            ParameterOrRef::Ref { ref_path: "./params.yaml#/components/parameters/Limit".to_string() },
            ParameterOrRef::Ref { ref_path: "noslash".to_string() },
        ],
        request_body: Some(RequestBodyOrRef::Ref {
            ref_path: "./bodies.yaml#/components/requestBodies/Pet".to_string(),
        }),
        responses: vec![(
            "200".to_string(),
            ResponseOrRef::Ref { ref_path: "./models.yaml#/components/responses/Ok".to_string() },
        )],
    }
}

fn document() -> OpenApiSpec {
    OpenApiSpec {
        openapi: "3.0.3".to_string(),
        info: Info { title: "T".to_string(), version: "1".to_string(), description: None },
        paths: vec![(
            "/pets".to_string(),
            PathItem { get: Some(op()), post: None, put: None, patch: None, delete: None, parameters: Vec::new() },
        )],
        components: Some(Components {
            schemas: vec![("A".to_string(), nested()), ("B".to_string(), nested())],
            parameters: Vec::new(),
            request_bodies: Vec::new(),
            responses: Vec::new(),
        }),
    }
}

#[test]
fn external_refs_come_sorted_and_once() {
    let refs = collect_external_refs(&document());
    assert_eq!(
        refs,
        vec![
            "./b.yaml#/components/schemas/B",
            "./bodies.yaml#/components/requestBodies/Pet",
            "./c.yaml#/x",
            "./models.yaml#/components/responses/Ok",
            "./models.yaml#/components/schemas/Owner",
            "./models.yaml#/components/schemas/Pet",
            "./params.yaml#/components/parameters/Limit",
        ]
    );
    assert_eq!(
        sorted_unique(&vec!["b".to_string(), "a".to_string(), "b".to_string()]),
        vec!["a", "b"]
    );
}

#[test]
fn rewriting_a_document_makes_its_refs_local() {
    let mut spec = document();
    rewrite_refs(&mut spec, "./models.yaml", "/components/schemas/Pet");
    let get = spec.paths[0].1.get.as_ref().unwrap();
    match &get.responses[0].1 {
        ResponseOrRef::Ref { ref_path } => assert_eq!(ref_path, "#/components/responses/Ok"),
        _ => panic!("expected a ref"),
    }
    match &get.request_body {
        Some(RequestBodyOrRef::Ref { ref_path }) => {
            assert_eq!(ref_path, "./bodies.yaml#/components/requestBodies/Pet")
        }
        _ => panic!("expected a ref"),
    }
    let remaining = collect_external_refs(&spec);
    assert!(!remaining.iter().any(|r| r.starts_with("./models.yaml")));
}

#[test]
fn no_ref_into_a_rewritten_file_remains() {
    for file in ["./params.yaml", "./bodies.yaml", "./b.yaml", "./c.yaml"] {
        let mut spec = document();
        let before = collect_external_refs(&spec);
        rewrite_refs(&mut spec, file, "");
        let after = collect_external_refs(&spec);
        assert!(!after.iter().any(|r| r.starts_with(file) && r.contains('#')));
        let others: Vec<&String> = before.iter().filter(|r| !r.starts_with(file)).collect();
        assert_eq!(after.iter().collect::<Vec<_>>(), others);
    }
}

#[test]
fn rewriting_a_schema_drops_exactly_the_refs_into_the_file() {
    for file in ["./models.yaml", "./b.yaml", "./c.yaml", "./none.yaml"] {
        let mut before = Vec::new();
        collect_refs_from_schema_or_ref(&nested(), &mut before);
        let mut s = nested();
        rewrite_refs_in_schema_or_ref(&mut s, file);
        let mut after = Vec::new();
        collect_refs_from_schema_or_ref(&s, &mut after);
        let expected: Vec<String> = before
            .into_iter()
            .filter(|r| !(r.starts_with(file) && r.contains('#')))
            .collect();
        assert_eq!(after, expected);
    }
}
