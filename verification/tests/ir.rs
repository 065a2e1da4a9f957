use oa_forge::ir::{
    ApiSpec, ContentType, Endpoint, EndpointParam, HttpMethod, ParamLocation, PrimitiveType,
    ResponseType, TypeRepr, collect_type_imports, path_to_colon_params, path_to_template_literal,
};

fn endpoint(id: &str) -> Endpoint {
    Endpoint {
        path: "/pets/{petId}".to_string(),
        method: HttpMethod::Get,
        operation_id: id.to_string(),
        summary: None,
        tags: Vec::new(),
        parameters: Vec::new(),
        request_body: None,
        request_content_type: ContentType::Empty,
        response: None,
        response_type: ResponseType::Void,
        error_response: None,
    }
}

fn param(name: &str, location: ParamLocation) -> EndpointParam {
    EndpointParam {
        name: name.to_string(),
        location,
        required: true,
        repr: TypeRepr::Primitive(PrimitiveType::String),
        array_style: None,
    }
}

#[test]
fn method_names_in_both_cases() {
    assert_eq!(HttpMethod::Get.as_upper(), "GET");
    assert_eq!(HttpMethod::Patch.as_upper(), "PATCH");
    assert_eq!(HttpMethod::Delete.as_lower(), "delete");
    assert_eq!(HttpMethod::Post.as_lower(), "post");
}

#[test]
fn path_templates() {
    assert_eq!(path_to_template_literal("/pets/{petId}"), "/pets/${pathParams.petId}");
    assert_eq!(
        path_to_template_literal("/users/{userId}/posts/{postId}"),
        "/users/${pathParams.userId}/posts/${pathParams.postId}"
    );
    assert_eq!(path_to_template_literal("/open/{unclosed"), "/open/${pathParams.unclosed}");
    assert_eq!(path_to_template_literal("/plain"), "/plain");
    assert_eq!(path_to_colon_params("/pets/{petId}/toys/{toyId}"), "/pets/:petId/toys/:toyId");
    assert_eq!(path_to_colon_params("/plain"), "/plain");
}

#[test]
fn params_and_return_types() {
    let mut e = endpoint("getPet");
    e.parameters = vec![param("petId", ParamLocation::Path)];
    assert!(e.has_params(&ParamLocation::Path));
    assert!(!e.has_params(&ParamLocation::Query));
    assert_eq!(e.return_type_ts(), "void");
    e.response = Some(TypeRepr::Ref { name: "Pet".to_string() });
    e.response_type = ResponseType::Json;
    assert_eq!(e.return_type_ts(), "getPetResponse");
    e.response_type = ResponseType::Text;
    assert_eq!(e.return_type_ts(), "string");
    e.response_type = ResponseType::Blob;
    assert_eq!(e.return_type_ts(), "Blob");
}

#[test]
fn type_imports_follow_params_bodies_and_responses() {
    let mut a = endpoint("getPet");
    a.parameters = vec![param("petId", ParamLocation::Path), param("x", ParamLocation::Cookie)];
    a.response = Some(TypeRepr::Any);
    a.response_type = ResponseType::Json;
    let mut b = endpoint("addPet");
    b.request_body = Some(TypeRepr::Any);
    b.error_response = Some(TypeRepr::Any);
    b.parameters = vec![param("q", ParamLocation::Query), param("h", ParamLocation::Header)];
    let api = ApiSpec { types: Vec::new(), endpoints: vec![a, b] };
    assert_eq!(
        collect_type_imports(&api),
        vec![
            "getPetPathParams",
            "getPetCookieParams",
            "getPetResponse",
            "addPetQueryParams",
            "addPetHeaderParams",
            "addPetBody",
            "addPetError",
        ]
    );
}
