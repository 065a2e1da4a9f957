use oa_forge::openapi::{
    AdditionalProperties, Components, Info, OpenApiSpec, Schema, SchemaOrRef, SchemaType,
};
use oa_forge::resolver::{detect_circular_refs, resolve_ref};

fn schema() -> Schema {
    Schema {
        schema_type: None,
        format: None,
        properties: Vec::new(),
        required: Vec::new(),
        items: None,
        prefix_items: None,
        enum_values: Vec::new(),
        all_of: None,
        one_of: None,
        any_of: None,
        discriminator: None,
        additional_properties: None,
        nullable: false,
        read_only: false,
        description: None,
        default: None,
        min_length: None,
        max_length: None,
        pattern: None,
        minimum: None,
        maximum: None,
        exclusive_minimum: None,
        exclusive_maximum: None,
        multiple_of: None,
        min_items: None,
        max_items: None,
        defs: None,
    }
}

fn typed(t: &str) -> Schema {
    let mut s = schema();
    s.schema_type = Some(SchemaType::Single(t.to_string()));
    s
}

fn inline(s: Schema) -> SchemaOrRef {
    SchemaOrRef::Schema(Box::new(s))
}

fn reference(p: &str) -> SchemaOrRef {
    SchemaOrRef::Ref { ref_path: p.to_string() }
}

fn object(props: Vec<(&str, SchemaOrRef)>) -> Schema {
    let mut s = typed("object");
    s.properties = props.into_iter().map(|(k, v)| (k.to_string(), v)).collect();
    s
}

fn spec_with(schemas: Vec<(&str, SchemaOrRef)>) -> OpenApiSpec {
    OpenApiSpec {
        openapi: "3.0.3".to_string(),
        info: Info { title: "Test".to_string(), version: "1.0.0".to_string(), description: None },
        paths: Vec::new(),
        components: Some(Components {
            schemas: schemas.into_iter().map(|(k, v)| (k.to_string(), v)).collect(),
            parameters: Vec::new(),
            request_bodies: Vec::new(),
            responses: Vec::new(),
        }),
    }
}

fn schema_named<'a>(spec: &'a OpenApiSpec, name: &str) -> &'a SchemaOrRef {
    &spec.components.as_ref().unwrap().schemas.iter().find(|(k, _)| k == name).unwrap().1
}

fn pet_spec() -> OpenApiSpec {
    spec_with(vec![("Pet", inline(object(vec![("name", inline(typed("string")))])))])
}

#[test]
fn resolve_simple_ref() {
    let spec = pet_spec();
    let result = resolve_ref("#/components/schemas/Pet", spec.components.as_ref());
    assert!(result.is_some());
}

#[test]
fn resolve_non_component_ref_returns_none() {
    let spec = pet_spec();
    assert!(resolve_ref("#/paths/get", spec.components.as_ref()).is_none());
    assert!(resolve_ref("#/definitions/Pet", spec.components.as_ref()).is_none());
    assert!(resolve_ref("", spec.components.as_ref()).is_none());
}

#[test]
fn resolve_ref_strips_leading_marks_and_needs_components() {
    let spec = pet_spec();
    assert!(resolve_ref("components/schemas/Pet", spec.components.as_ref()).is_some());
    assert!(resolve_ref("##//components/schemas/Pet", spec.components.as_ref()).is_some());
    assert!(resolve_ref("#/components/schemas/Pet/extra", spec.components.as_ref()).is_none());
    assert!(resolve_ref("#/components/schemas/Dog", spec.components.as_ref()).is_none());
    assert!(resolve_ref("#/components/schemas/Pet", None).is_none());
}

#[test]
fn detect_circular_ref_through_array_items() {
    let mut children = typed("array");
    children.items = Some(Box::new(reference("#/components/schemas/TreeNode")));
    let spec = spec_with(vec![(
        "TreeNode",
        inline(object(vec![("value", inline(typed("string"))), ("children", inline(children))])),
    )]);
    let schema = schema_named(&spec, "TreeNode");
    let mut visited = Vec::new();
    assert!(detect_circular_refs(schema, spec.components.as_ref(), &mut visited));
}

#[test]
fn detect_circular_ref_through_allof() {
    let mut base = schema();
    base.all_of = Some(vec![
        inline(object(vec![("name", inline(typed("string")))])),
        reference("#/components/schemas/Base"),
    ]);
    let spec = spec_with(vec![("Base", inline(base))]);
    let schema = schema_named(&spec, "Base");
    let mut visited = Vec::new();
    assert!(detect_circular_refs(schema, spec.components.as_ref(), &mut visited));
}

#[test]
fn detect_circular_ref_through_oneof() {
    let mut expr = schema();
    expr.one_of = Some(vec![
        inline(object(vec![("value", inline(typed("number")))])),
        reference("#/components/schemas/Expression"),
    ]);
    let spec = spec_with(vec![("Expression", inline(expr))]);
    let schema = schema_named(&spec, "Expression");
    let mut visited = Vec::new();
    assert!(detect_circular_refs(schema, spec.components.as_ref(), &mut visited));
}

#[test]
fn non_circular_ref_returns_false() {
    let spec = spec_with(vec![
        ("Owner", inline(object(vec![("name", inline(typed("string")))]))),
        ("Pet", inline(object(vec![("owner", reference("#/components/schemas/Owner"))]))),
    ]);
    let schema = schema_named(&spec, "Pet");
    let mut visited = Vec::new();
    assert!(!detect_circular_refs(schema, spec.components.as_ref(), &mut visited));
}

#[test]
fn unresolvable_ref_returns_false() {
    let spec = spec_with(vec![(
        "Broken",
        inline(object(vec![("missing", reference("#/components/schemas/DoesNotExist"))])),
    )]);
    let schema = schema_named(&spec, "Broken");
    let mut visited = Vec::new();
    assert!(!detect_circular_refs(schema, spec.components.as_ref(), &mut visited));
}

#[test]
fn detect_self_reference() {
    let spec = spec_with(vec![(
        "Node",
        inline(object(vec![("child", reference("#/components/schemas/Node"))])),
    )]);
    let schema = schema_named(&spec, "Node");
    let mut visited = Vec::new();
    assert!(detect_circular_refs(schema, spec.components.as_ref(), &mut visited));
}

#[test]
fn cycle_search_leaves_visited_as_it_was() {
    let spec = spec_with(vec![
        ("A", inline(object(vec![("b", reference("#/components/schemas/B"))]))),
        ("B", inline(object(vec![("a", reference("#/components/schemas/A"))]))),
    ]);
    let mut visited = vec!["#/components/schemas/X".to_string()];
    assert!(detect_circular_refs(schema_named(&spec, "A"), spec.components.as_ref(), &mut visited));
    assert_eq!(visited, vec!["#/components/schemas/X".to_string()]);
}

#[test]
fn a_ref_already_visited_is_a_cycle() {
    let spec = spec_with(vec![("Owner", inline(typed("string")))]);
    let r = reference("#/components/schemas/Owner");
    let mut visited = vec!["#/components/schemas/Owner".to_string()];
    assert!(detect_circular_refs(&r, spec.components.as_ref(), &mut visited));
    let mut empty = Vec::new();
    assert!(!detect_circular_refs(&r, spec.components.as_ref(), &mut empty));
}

#[test]
fn detect_circular_ref_through_anyof() {
    let mut a = schema();
    a.any_of = Some(vec![reference("#/components/schemas/A")]);
    let spec = spec_with(vec![("A", inline(a))]);
    let s = schema_named(&spec, "A");
    assert!(detect_circular_refs(s, spec.components.as_ref(), &mut Vec::new()));
}

#[test]
fn detect_circular_ref_through_prefix_items() {
    let mut t = typed("array");
    t.prefix_items = Some(vec![inline(typed("string")), reference("#/components/schemas/T")]);
    let spec = spec_with(vec![("T", inline(t))]);
    let s = schema_named(&spec, "T");
    assert!(detect_circular_refs(s, spec.components.as_ref(), &mut Vec::new()));
}

#[test]
fn detect_circular_ref_through_additional_properties() {
    let mut m = typed("object");
    m.additional_properties = Some(AdditionalProperties::Schema(Box::new(reference(
        "#/components/schemas/M",
    ))));
    let spec = spec_with(vec![("M", inline(m))]);
    let s = schema_named(&spec, "M");
    assert!(detect_circular_refs(s, spec.components.as_ref(), &mut Vec::new()));
    let mut free = typed("object");
    free.additional_properties = Some(AdditionalProperties::Bool(true));
    let spec2 = spec_with(vec![("F", inline(free))]);
    assert!(!detect_circular_refs(schema_named(&spec2, "F"), spec2.components.as_ref(), &mut Vec::new()));
}
