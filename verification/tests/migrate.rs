use oa_forge::migrate::{
    MigrateFormat, SelectError, migrate_orval_project, migration_report, render_config,
    select_project,
};
use oa_forge::value::{Number, Value};

fn st(s: &str) -> Value {
    Value::String(s.to_string())
}

fn obj(entries: Vec<(&str, Value)>) -> Value {
    Value::Mapping(entries.into_iter().map(|(k, v)| (st(k), v)).collect())
}

fn arr(items: Vec<Value>) -> Value {
    Value::Sequence(items)
}

#[test]
fn migrate_basic_orval_config() {
    let orval = obj(vec![
        ("input", obj(vec![("target", st("./openapi.yaml"))])),
        (
            "output",
            obj(vec![
                ("target", st("./src/api/generated")),
                ("mode", st("tags")),
                ("httpClient", st("fetch")),
                ("client", st("react-query")),
                ("mock", Value::Bool(true)),
                (
                    "override",
                    obj(vec![
                        (
                            "mutator",
                            obj(vec![
                                ("path", st("./src/api/custom-fetch.ts")),
                                ("name", st("customFetch")),
                            ]),
                        ),
                        ("header", st("/* generated */")),
                    ]),
                ),
            ]),
        ),
        ("hooks", obj(vec![("afterAllFilesWrite", st("prettier --write"))])),
    ]);

    let result = migrate_orval_project("test", &orval);

    assert!(result.config_lines.iter().any(|l| l.contains("input: './openapi.yaml'")));
    assert!(result.config_lines.iter().any(|l| l.contains("output: './src/api/generated'")));
    assert!(result.config_lines.iter().any(|l| l.contains("split: 'tag'")));
    assert!(result.config_lines.iter().any(|l| l.contains("hooks: true")));
    assert!(result.config_lines.iter().any(|l| l.contains("query_framework: 'react'")));
    assert!(result.config_lines.iter().any(|l| l.contains("mock: true")));
    assert!(result
        .config_lines
        .iter()
        .any(|l| l.contains("custom_client_path: './src/api/custom-fetch.ts'")));
    assert!(result.config_lines.iter().any(|l| l.contains("custom_client_name: 'customFetch'")));
    assert!(result.config_lines.iter().any(|l| l.contains("after_write:")));
    assert!(result.config_lines.iter().any(|l| l.contains("header: '/* generated */'")));

    assert!(!result.converted.is_empty());
    assert!(result.unsupported.is_empty());
}

#[test]
fn migrate_unsupported_fields_reported() {
    let orval = obj(vec![
        (
            "input",
            obj(vec![
                ("target", st("./spec.yaml")),
                ("filters", obj(vec![("tags", arr(vec![st("pets")]))])),
                ("override", obj(vec![("transformer", st("./transform.js"))])),
            ]),
        ),
        (
            "output",
            obj(vec![
                ("target", st("./out")),
                ("baseUrl", st("/api/v1")),
                ("clean", Value::Bool(true)),
                (
                    "override",
                    obj(vec![
                        ("query", obj(vec![("useSuspenseQuery", Value::Bool(true))])),
                        ("tags", obj(vec![("pets", obj(vec![]))])),
                        ("transformer", st("./out-transform.js")),
                        ("useTypeOverInterfaces", Value::Bool(true)),
                        ("enumGenerationType", st("union")),
                    ]),
                ),
            ]),
        ),
    ]);

    let result = migrate_orval_project("test", &orval);

    assert!(result.unsupported.iter().any(|u| u.contains("input.filters")));
    assert!(result.unsupported.iter().any(|u| u.contains("input.override.transformer")));
    assert!(result.unsupported.iter().any(|u| u.contains("baseUrl")));
    assert!(result.unsupported.iter().any(|u| u.contains("clean")));
    assert!(result.unsupported.iter().any(|u| u.contains("override.query")));
    assert!(result.unsupported.iter().any(|u| u.contains("override.tags")));
    assert!(result.unsupported.iter().any(|u| u.contains("override.transformer")));
    assert!(result.unsupported.iter().any(|u| u.contains("useTypeOverInterfaces")));
    assert!(result.unsupported.iter().any(|u| u.contains("enumGenerationType")));
}

#[test]
fn migrate_tags_split_maps_to_tag() {
    let orval = obj(vec![
        ("input", st("./spec.yaml")),
        ("output", obj(vec![("target", st("./out")), ("mode", st("tags-split"))])),
    ]);

    let result = migrate_orval_project("test", &orval);

    assert!(result.config_lines.iter().any(|l| l.contains("split: 'tag'")));
    assert!(result.warnings.is_empty());
}

#[test]
fn migrate_mutator_string_shorthand() {
    let orval = obj(vec![(
        "output",
        obj(vec![
            ("target", st("./out")),
            ("override", obj(vec![("mutator", st("./src/custom.ts"))])),
        ]),
    )]);

    let result = migrate_orval_project("test", &orval);

    assert!(result.config_lines.iter().any(|l| l.contains("custom_client_path: './src/custom.ts'")));
}

#[test]
fn migrate_mutator_default_export_warns() {
    let orval = obj(vec![(
        "output",
        obj(vec![
            ("target", st("./out")),
            (
                "override",
                obj(vec![(
                    "mutator",
                    obj(vec![("path", st("./client.ts")), ("default", Value::Bool(true))]),
                )]),
            ),
        ]),
    )]);

    let result = migrate_orval_project("test", &orval);

    assert!(result.warnings.iter().any(|w| w.contains("default export")));
}

#[test]
fn migrate_input_as_string() {
    let orval = obj(vec![("input", st("./spec.yaml")), ("output", st("./out"))]);

    let result = migrate_orval_project("test", &orval);

    assert!(result.config_lines.iter().any(|l| l.contains("input: './spec.yaml'")));
    assert!(result.config_lines.iter().any(|l| l.contains("output: './out'")));
}

#[test]
fn migrate_vue_query_client() {
    let orval = obj(vec![
        ("input", st("./spec.yaml")),
        ("output", obj(vec![("target", st("./out")), ("client", st("vue-query"))])),
    ]);

    let result = migrate_orval_project("test", &orval);

    assert!(result.config_lines.iter().any(|l| l.contains("hooks: true")));
    assert!(result.config_lines.iter().any(|l| l.contains("query_framework: 'vue'")));
}

#[test]
fn migrate_lines_and_notes_are_exact() {
    let orval = obj(vec![
        ("input", st("./spec.yaml")),
        (
            "output",
            obj(vec![
                ("target", st("./out")),
                ("mode", st("split")),
                ("httpClient", st("axios")),
                ("client", st("zod")),
                ("prettier", Value::Bool(true)),
            ]),
        ),
    ]);
    let r = migrate_orval_project("api", &orval);
    assert_eq!(
        r.config_lines,
        vec![
            "  input: './spec.yaml',",
            "  output: './out',",
            "  split: 'tag',",
            "  client: 'axios',",
            "  zod: true,",
        ]
    );
    assert_eq!(
        r.converted,
        vec![
            "input.target → input: \"./spec.yaml\"",
            "output.target → output: \"./out\"",
            "output.mode: \"split\" → split: \"tag\"",
            "output.httpClient: \"axios\" → client: \"axios\"",
            "output.client: \"zod\" → zod: true",
        ]
    );
    assert_eq!(
        r.warnings,
        vec!["output.prettier → oa-forge has a built-in formatter (no external dependency needed)"]
    );
    assert!(r.unsupported.is_empty());
}

#[test]
fn migrate_axios_client_without_http_client() {
    let orval = obj(vec![("output", obj(vec![("client", st("axios"))]))]);
    let r = migrate_orval_project("p", &orval);
    assert_eq!(r.config_lines, vec!["  client: 'axios',"]);
    assert_eq!(r.converted, vec!["output.client: \"axios\" → client: \"axios\""]);
}

#[test]
fn migrate_angular_client_defers_to_http_client() {
    let orval = obj(vec![(
        "output",
        obj(vec![("httpClient", st("fetch")), ("client", st("angular"))]),
    )]);
    let r = migrate_orval_project("p", &orval);
    assert_eq!(r.config_lines, vec!["  client: 'fetch',"]);
    let alone = obj(vec![("output", obj(vec![("client", st("angular"))]))]);
    let r2 = migrate_orval_project("p", &alone);
    assert_eq!(r2.config_lines, vec!["  client: 'angular',"]);
}

#[test]
fn migrate_override_mock_msw() {
    let orval = obj(vec![(
        "output",
        obj(vec![("override", obj(vec![("mock", obj(vec![("type", st("msw"))]))]))]),
    )]);
    let r = migrate_orval_project("p", &orval);
    assert_eq!(r.config_lines, vec!["  msw: true,"]);
    assert_eq!(r.converted, vec!["override.mock.type: \"msw\" → msw: true"]);
    let other = obj(vec![(
        "output",
        obj(vec![("override", obj(vec![("mock", obj(vec![("type", st("faker"))]))]))]),
    )]);
    assert!(migrate_orval_project("p", &other).config_lines.is_empty());
}

#[test]
fn migrate_unknown_mode_and_clients() {
    let orval = obj(vec![(
        "output",
        obj(vec![
            ("mode", st("weird")),
            ("httpClient", st("got")),
            ("client", st("swr")),
            ("mock", obj(vec![])),
        ]),
    )]);
    let r = migrate_orval_project("p", &orval);
    assert_eq!(
        r.config_lines,
        vec!["  split: 'single',", "  mock: true,", "  msw: true,"]
    );
    assert_eq!(
        r.unsupported,
        vec![
            "output.mode: \"weird\" → unknown mode",
            "output.httpClient: \"got\" → not supported",
            "output.client: \"swr\" → not supported",
        ]
    );
}

#[test]
fn migrate_header_false_operations_and_hook_list() {
    let orval = obj(vec![
        (
            "output",
            obj(vec![(
                "override",
                obj(vec![
                    ("header", Value::Bool(false)),
                    (
                        "operations",
                        obj(vec![("listPets", obj(vec![])), ("getPet", obj(vec![]))]),
                    ),
                    ("zod", obj(vec![])),
                ]),
            )]),
        ),
        (
            "hooks",
            obj(vec![(
                "afterAllFilesWrite",
                arr(vec![st("prettier --write"), Value::Number(Number::PosInt(3)), st("eslint --fix")]),
            )]),
        ),
    ]);
    let r = migrate_orval_project("p", &orval);
    assert_eq!(
        r.config_lines,
        vec![
            "  header: '',",
            "  zod: true,",
            "  after_write: ['prettier --write', 'eslint --fix'],",
        ]
    );
    assert_eq!(
        r.warnings,
        vec!["override.operations: 2 operation override(s) found → oa-forge overrides use \"METHOD /path\" keys, not operationId. Manual mapping required."]
    );
}

#[test]
fn migrate_header_function_is_unsupported() {
    let orval = obj(vec![(
        "output",
        obj(vec![("override", obj(vec![("header", Value::Number(Number::PosInt(1)))]))]),
    )]);
    let r = migrate_orval_project("p", &orval);
    assert_eq!(r.unsupported, vec!["override.header (function) → only string headers supported"]);
}

#[test]
fn select_direct_named_single_and_errors() {
    let direct = obj(vec![("input", st("./a.yaml"))]);
    let (name, _) = select_project(&direct, None).ok().unwrap();
    assert_eq!(name, "default");

    let multi = obj(vec![("petstore", obj(vec![])), ("admin", obj(vec![]))]);
    let (name, _) = select_project(&multi, Some(&"admin".to_string())).ok().unwrap();
    assert_eq!(name, "admin");

    match select_project(&multi, Some(&"nope".to_string())) {
        Err(e) => assert_eq!(
            e.message(),
            "project 'nope' not found. Available: \"petstore\", \"admin\""
        ),
        Ok(_) => panic!("expected an error"),
    }
    match select_project(&multi, None) {
        Err(e) => assert_eq!(
            e.message(),
            "multi-project config detected. Use --project to select one.\nAvailable: \"petstore\", \"admin\""
        ),
        Ok(_) => panic!("expected an error"),
    }

    let single = obj(vec![("only", obj(vec![("output", st("./o"))]))]);
    let (name, _) = select_project(&single, None).ok().unwrap();
    assert_eq!(name, "only");

    match select_project(&st("x"), None) {
        Err(e) => {
            assert!(matches!(e, SelectError::NotAnObject));
            assert_eq!(e.message(), "unexpected config format: expected an object");
        }
        Ok(_) => panic!("expected an error"),
    }
}

#[test]
fn render_config_in_each_format() {
    let lines = vec![
        "  input: './spec.yaml',".to_string(),
        "  hooks: true,".to_string(),
        "  after_write: ['a', 'b'],".to_string(),
    ];
    assert_eq!(
        render_config(&lines, MigrateFormat::Ts),
        "import { defineConfig } from 'oa-forge/config';\n\nexport default defineConfig({\n  input: './spec.yaml',\n  hooks: true,\n  after_write: ['a', 'b'],\n});\n"
    );
    assert_eq!(
        render_config(&lines, MigrateFormat::Json),
        "{\n  input: \"./spec.yaml\",\n  hooks: true,\n  after_write: [\"a\", \"b\"]\n}\n"
    );
    assert_eq!(
        render_config(&lines, MigrateFormat::Toml),
        "input = \"./spec.yaml\"\nhooks = true\nafter_write = [\"a\", \"b\"]\n"
    );
    assert_eq!(render_config(&Vec::new(), MigrateFormat::Json), "{\n}\n");
}

#[test]
fn report_lists_each_kind_and_counts() {
    let orval = obj(vec![(
        "output",
        obj(vec![("target", st("./o")), ("clean", Value::Bool(true))]),
    )]);
    let r = migrate_orval_project("default", &orval);
    let report = migration_report(&r, "default", "orval.config.ts");
    assert_eq!(
        report,
        vec![
            "",
            "── Migration report: default (from orval.config.ts) ──",
            "",
            "  \x1b[32m✓\x1b[0m output.target → output: \"./o\"",
            "",
            "  \x1b[31m✗\x1b[0m output.clean → not yet supported",
            "",
            "  1 converted, 0 warnings, 1 unsupported",
        ]
    );
}
