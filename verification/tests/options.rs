use oa_forge::generate::EndpointOverride;
use oa_forge::options::{
    ClientStyle, ClientType, Config, ConfigFormat, GenerateArgs, QueryFramework, SplitMode,
    WatchEvent, config_candidates, config_format, hook_command, resolve_options,
    triggers_regeneration, ts_eval_script, watches,
};

fn args() -> GenerateArgs {
    GenerateArgs {
        input: None,
        output: None,
        client: None,
        hooks: false,
        zod: false,
        valibot: false,
        msw: false,
        mock: false,
        watch: false,
        dry_run: false,
        no_validate: false,
        split: SplitMode::Single,
        query_framework: QueryFramework::React,
        custom_client_path: None,
        custom_client_name: "customInstance".to_string(),
    }
}

fn config() -> Config {
    Config {
        input: None,
        output: None,
        client: None,
        hooks: None,
        zod: None,
        valibot: None,
        msw: None,
        mock: None,
        split: None,
        query_framework: None,
        custom_client_path: None,
        custom_client_name: None,
        header: None,
        after_write: None,
        overrides: Vec::new(),
    }
}

fn err_of(a: GenerateArgs, c: Config) -> String {
    match resolve_options(a, c) {
        Err(e) => e,
        Ok(_) => panic!("expected an error"),
    }
}

#[test]
fn input_is_required() {
    assert_eq!(err_of(args(), config()), "--input is required (or set `input` in oa-forge.toml)");
}

#[test]
fn command_line_wins_and_config_fills_in() {
    let mut a = args();
    a.input = Some("cli.yaml".to_string());
    a.zod = true;
    let mut c = config();
    c.input = Some("conf.yaml".to_string());
    c.output = Some("./out".to_string());
    c.hooks = Some(true);
    c.split = Some(SplitMode::Tag);
    c.query_framework = Some(QueryFramework::Vue);
    c.header = Some("/* h */".to_string());
    c.after_write = Some(vec!["prettier --write".to_string()]);
    c.overrides = vec![("GET /x".to_string(), EndpointOverride { operation_id: None, skip: true })];
    let o = resolve_options(a, c).ok().unwrap();
    assert_eq!(o.input, "cli.yaml");
    assert_eq!(o.output, "./out");
    assert!(o.hooks && o.zod && !o.valibot);
    assert_eq!(o.split, SplitMode::Tag);
    assert_eq!(o.query_framework, QueryFramework::Vue);
    assert_eq!(o.client_type, ClientType::Fetch);
    assert!(matches!(o.client_style, ClientStyle::Fetch));
    assert_eq!(o.header, "/* h */");
    assert_eq!(o.after_write, vec!["prettier --write".to_string()]);
    assert_eq!(o.overrides.len(), 1);
}

#[test]
fn defaults_when_nothing_is_set() {
    let mut a = args();
    a.input = Some("spec.yaml".to_string());
    let o = resolve_options(a, config()).ok().unwrap();
    assert_eq!(o.output, "./src/api");
    assert_eq!(o.split, SplitMode::Single);
    assert_eq!(o.header, "/* eslint-disable */\n// Generated by oa-forge. Do not edit.");
    assert!(o.after_write.is_empty());
}

#[test]
fn custom_client_import_and_conflicts() {
    let mut a = args();
    a.input = Some("spec.yaml".to_string());
    a.output = Some("./src/api".to_string());
    let mut c = config();
    c.custom_client_path = Some("./src/custom-client.ts".to_string());
    c.custom_client_name = Some("myFetch".to_string());
    let o = resolve_options(a, c).ok().unwrap();
    match o.client_style {
        ClientStyle::Custom(cc) => {
            assert_eq!(cc.import_path, "../custom-client");
            assert_eq!(cc.export_name, "myFetch");
        }
        ClientStyle::Fetch => panic!("expected a custom client"),
    }

    let mut a = args();
    a.input = Some("spec.yaml".to_string());
    a.client = Some(ClientType::Axios);
    a.custom_client_path = Some("./c.ts".to_string());
    assert_eq!(err_of(a, config()), "--custom-client-path is only supported with --client fetch");

    let mut a = args();
    a.input = Some("spec.yaml".to_string());
    a.hooks = true;
    a.custom_client_path = Some("./c.ts".to_string());
    assert_eq!(
        err_of(a, config()),
        "--hooks is not compatible with --custom-client-path (hooks require RequestConfig from the fetch client)"
    );
}

#[test]
fn watching_and_events() {
    let mut a = args();
    a.watch = true;
    assert!(watches(&a));
    a.dry_run = true;
    assert!(!watches(&a));
    assert!(triggers_regeneration(WatchEvent::Modify));
    assert!(triggers_regeneration(WatchEvent::Create));
    assert!(!triggers_regeneration(WatchEvent::Other));
}

#[test]
fn config_format_by_extension() {
    assert_eq!(config_format("ts"), ConfigFormat::TypeScript);
    assert_eq!(config_format("mts"), ConfigFormat::TypeScript);
    assert_eq!(config_format("json"), ConfigFormat::Json);
    assert_eq!(config_format("toml"), ConfigFormat::Toml);
    assert_eq!(config_format(""), ConfigFormat::Toml);
    assert_eq!(config_format("yaml"), ConfigFormat::Toml);
}

#[test]
fn config_candidates_in_discovery_order() {
    let c = config_candidates();
    let names: Vec<&str> = c.iter().map(|(n, _)| n.as_str()).collect();
    assert_eq!(
        names,
        vec![
            "oa-forge.config.ts",
            "oa-forge.config.mts",
            "oa-forge.config.json",
            ".oa-forge.json",
            "oa-forge.toml",
            ".oa-forge.toml",
        ]
    );
    let formats: Vec<ConfigFormat> = c.iter().map(|(_, f)| *f).collect();
    assert_eq!(
        formats,
        vec![
            ConfigFormat::TypeScript,
            ConfigFormat::TypeScript,
            ConfigFormat::Json,
            ConfigFormat::Json,
            ConfigFormat::Toml,
            ConfigFormat::Toml,
        ]
    );
}

#[test]
fn ts_eval_script_imports_the_module() {
    assert_eq!(
        ts_eval_script("/work/oa-forge.config.ts"),
        "import c from '/work/oa-forge.config.ts'; process.stdout.write(JSON.stringify(c.default ?? c))"
    );
}

#[test]
fn hook_command_appends_output_dir() {
    assert_eq!(hook_command("prettier --write", "./src/api"), "prettier --write ./src/api");
}
