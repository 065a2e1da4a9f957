use oa_forge::ir::{ContentType, Endpoint, HttpMethod, ResponseType};
use oa_forge::output::{
    Outputs, barrel_index, endpoint_file_name, endpoint_preamble, group_by_tag, is_index_file,
    named_outputs, tag_dir_index, tag_slug, tags_index,
};

fn endpoint(id: &str, tags: &[&str]) -> Endpoint {
    Endpoint {
        path: "/x".to_string(),
        method: HttpMethod::Get,
        operation_id: id.to_string(),
        summary: None,
        tags: tags.iter().map(|t| t.to_string()).collect(),
        parameters: Vec::new(),
        request_body: None,
        request_content_type: ContentType::Empty,
        response: None,
        response_type: ResponseType::Void,
        error_response: None,
    }
}

#[test]
fn split_by_tag_groups_by_first_tag_in_tag_order() {
    let eps = vec![
        endpoint("a", &["pets", "store"]),
        endpoint("b", &[]),
        endpoint("c", &["Admin"]),
        endpoint("d", &["pets"]),
        endpoint("e", &["store"]),
    ];
    let groups = group_by_tag(&eps);
    let view: Vec<(&str, Vec<usize>)> =
        groups.iter().map(|(t, v)| (t.as_str(), v.clone())).collect();
    assert_eq!(
        view,
        vec![("Admin", vec![2]), ("default", vec![1]), ("pets", vec![0, 3]), ("store", vec![4])]
    );
    assert!(group_by_tag(&Vec::new()).is_empty());
}

#[test]
fn tag_directories_are_lowercase_with_dashes() {
    assert_eq!(tag_slug("Pet Store"), "pet-store");
    assert_eq!(tag_slug("admin"), "admin");
    assert_eq!(tag_slug("Ünïcode Tag"), "ünïcode-tag");
}

#[test]
fn outputs_are_named_in_order() {
    let files = named_outputs(Outputs {
        types: "T".to_string(),
        client: "C".to_string(),
        hooks: None,
        zod: Some("Z".to_string()),
        valibot: None,
        msw: Some("M".to_string()),
        mock: None,
    });
    let names: Vec<(&str, &str)> = files.iter().map(|(n, c)| (n.as_str(), c.as_str())).collect();
    assert_eq!(
        names,
        vec![("types.gen.ts", "T"), ("client.gen.ts", "C"), ("zod.gen.ts", "Z"), ("msw.gen.ts", "M")]
    );
}

#[test]
fn index_files() {
    assert_eq!(
        barrel_index("/* h */", true, false, false, false, true),
        "/* h */\nexport * from './types.gen';\nexport * from './client.gen';\nexport * from './hooks.gen';\nexport * from './mock.gen';\n"
    );
    assert_eq!(
        tags_index("/* h */", &vec!["pets".to_string(), "store".to_string()]),
        "/* h */\nexport * from './types.gen';\nexport * from './pets';\nexport * from './store';\n"
    );
    assert_eq!(tag_dir_index("", false), "\nexport * from './client.gen';\n");
    assert_eq!(
        tag_dir_index("/* h */", true),
        "/* h */\nexport * from './client.gen';\nexport * from './hooks.gen';\n"
    );
    assert!(is_index_file("index.gen.ts"));
    assert!(!is_index_file("client.gen.ts"));
}

#[test]
fn endpoint_files() {
    assert_eq!(endpoint_file_name("listPets"), "listPets.gen.ts");
    assert_eq!(
        endpoint_preamble("/* h */", None),
        "/* h */\nimport type { RequestConfig } from '../client.gen';\n\n"
    );
    assert_eq!(
        endpoint_preamble("/* h */", Some("import { f } from '../f';")),
        "/* h */\nimport { f } from '../f';\n\n"
    );
}
