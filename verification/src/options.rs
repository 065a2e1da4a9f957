//! The options of a generation run, merged from the command line and the
//! configuration file: the command line wins where it says something, and
//! a custom client rules out other clients and the query hooks.
use vstd::prelude::*;

use crate::generate::{EndpointOverride, compute_relative_import, default_header};
use crate::generate;
use crate::text;

verus! {

/// Output split mode.
#[derive(Debug, Clone, Copy, PartialEq, Eq, Structural)]
pub enum SplitMode {
    Single,
    Tag,
    Endpoint,
}

/// HTTP client to generate.
#[derive(Debug, Clone, Copy, PartialEq, Eq, Structural)]
pub enum ClientType {
    Fetch,
    Axios,
    Hono,
    Angular,
}

/// Framework of the query hooks.
#[derive(Debug, Clone, Copy, PartialEq, Eq, Structural)]
pub enum QueryFramework {
    React,
    Vue,
    Solid,
    Svelte,
}

/// A custom client: where to import it from, and the name of its export.
#[derive(Debug)]
pub struct CustomClient {
    pub import_path: String,
    pub export_name: String,
}

/// How the generated client issues requests.
#[derive(Debug)]
pub enum ClientStyle {
    /// The built-in fetch client.
    Fetch,
    /// A user-provided client function (the mutator pattern).
    Custom(CustomClient),
}

/// The `generate` command line.
pub struct GenerateArgs {
    pub input: Option<String>,
    pub output: Option<String>,
    pub client: Option<ClientType>,
    pub hooks: bool,
    pub zod: bool,
    pub valibot: bool,
    pub msw: bool,
    pub mock: bool,
    pub watch: bool,
    pub dry_run: bool,
    pub no_validate: bool,
    /// `single` unless given.
    pub split: SplitMode,
    /// `react` unless given.
    pub query_framework: QueryFramework,
    pub custom_client_path: Option<String>,
    /// `customInstance` unless given.
    pub custom_client_name: String,
}

/// The configuration file.
pub struct Config {
    pub input: Option<String>,
    pub output: Option<String>,
    pub client: Option<ClientType>,
    pub hooks: Option<bool>,
    pub zod: Option<bool>,
    pub valibot: Option<bool>,
    pub msw: Option<bool>,
    pub mock: Option<bool>,
    pub split: Option<SplitMode>,
    pub query_framework: Option<QueryFramework>,
    pub custom_client_path: Option<String>,
    pub custom_client_name: Option<String>,
    /// Custom file header prepended to all generated files.
    pub header: Option<String>,
    /// Shell commands to run after files are written.
    pub after_write: Option<Vec<String>>,
    /// Per-endpoint overrides keyed by "METHOD /path", each key once.
    pub overrides: Vec<(String, EndpointOverride)>,
}

/// Resolved generation options (merged from command line and config file).
pub struct GenerateOptions {
    pub input: String,
    pub output: String,
    pub client_type: ClientType,
    pub hooks: bool,
    pub zod: bool,
    pub valibot: bool,
    pub msw: bool,
    pub mock: bool,
    pub dry_run: bool,
    pub no_validate: bool,
    pub split: SplitMode,
    pub query_framework: QueryFramework,
    pub client_style: ClientStyle,
    /// The custom client file, for import paths from other directories.
    pub custom_client_path: Option<String>,
    pub overrides: Vec<(String, EndpointOverride)>,
    pub header: String,
    pub after_write: Vec<String>,
}

/// The characters of an optional string.
pub open spec fn ostr(o: Option<String>) -> Option<Seq<char>> {
    match o {
        Some(s) => Some(s@),
        None => None,
    }
}

/// `a`, else `b`.
pub open spec fn either<T>(a: Option<T>, b: Option<T>) -> Option<T> {
    match a {
        Some(x) => Some(x),
        None => b,
    }
}

/// A flag: set on the command line, or `true` in the configuration.
pub open spec fn flag(arg: bool, conf: Option<bool>) -> bool {
    arg || conf == Some(true)
}

/// The custom client path: the command line's, else the configuration's.
pub open spec fn spec_custom_path(args: GenerateArgs, config: Config) -> Option<Seq<char>> {
    either(ostr(args.custom_client_path), ostr(config.custom_client_path))
}

/// The client type: the command line's, else the configuration's, else fetch.
pub open spec fn spec_client(args: GenerateArgs, config: Config) -> ClientType {
    match either(args.client, config.client) {
        Some(c) => c,
        None => ClientType::Fetch,
    }
}

/// Why the options cannot be resolved, if they cannot: no input anywhere;
/// a custom client with another client than fetch; a custom client with the
/// query hooks.
pub open spec fn resolve_error(args: GenerateArgs, config: Config) -> Option<Seq<char>> {
    if either(ostr(args.input), ostr(config.input)) is None {
        Some("--input is required (or set `input` in oa-forge.toml)"@)
    } else if spec_custom_path(args, config) is Some && spec_client(args, config)
        != ClientType::Fetch {
        Some("--custom-client-path is only supported with --client fetch"@)
    } else if spec_custom_path(args, config) is Some && flag(args.hooks, config.hooks) {
        Some(
            "--hooks is not compatible with --custom-client-path (hooks require RequestConfig from the fetch client)"@,
        )
    } else {
        None
    }
}

/// The export name of the custom client: the command line's when it is not
/// the default, else the configuration's, else `customInstance`.
pub open spec fn spec_client_name(args: GenerateArgs, config: Config) -> Seq<char> {
    if args.custom_client_name@ != "customInstance"@ {
        args.custom_client_name@
    } else {
        match ostr(config.custom_client_name) {
            Some(n) => n,
            None => "customInstance"@,
        }
    }
}

/// The client style for a custom client path: the fetch client when there
/// is none; else the custom client under `name`, imported by the import
/// path of the client file from the output directory `out`.
pub open spec fn style_of(
    style: ClientStyle,
    path: Option<Seq<char>>,
    name: Seq<char>,
    out: Seq<char>,
) -> bool {
    match style {
        ClientStyle::Fetch => path is None,
        ClientStyle::Custom(c) => path matches Some(p) && c.export_name@ == name
            && c.import_path@ == generate::relative_import(out, p),
    }
}

/// What the resolved options hold, for arguments that resolve.
pub open spec fn resolved(args: GenerateArgs, config: Config, o: GenerateOptions) -> bool {
    &&& Some(o.input@) == either(ostr(args.input), ostr(config.input))
    &&& o.output@ == match either(ostr(args.output), ostr(config.output)) {
        Some(x) => x,
        None => "./src/api"@,
    }
    &&& o.client_type == spec_client(args, config)
    &&& o.hooks == flag(args.hooks, config.hooks)
    &&& o.zod == flag(args.zod, config.zod)
    &&& o.valibot == flag(args.valibot, config.valibot)
    &&& o.msw == flag(args.msw, config.msw)
    &&& o.mock == flag(args.mock, config.mock)
    &&& o.dry_run == args.dry_run
    &&& o.no_validate == args.no_validate
    &&& o.split == if args.split != SplitMode::Single {
        args.split
    } else {
        match config.split {
            Some(s) => s,
            None => SplitMode::Single,
        }
    }
    &&& o.query_framework == if args.query_framework != QueryFramework::React {
        args.query_framework
    } else {
        match config.query_framework {
            Some(q) => q,
            None => QueryFramework::React,
        }
    }
    &&& ostr(o.custom_client_path) == spec_custom_path(args, config)
    &&& style_of(
        o.client_style,
        spec_custom_path(args, config),
        spec_client_name(args, config),
        o.output@,
    )
    &&& o.overrides@ == config.overrides@
    &&& o.header@ == match ostr(config.header) {
        Some(h) => h,
        None => "/* eslint-disable */\n"@ + generate::emitter_header_line(),
    }
    &&& o.after_write@ == match config.after_write {
        Some(v) => v@,
        None => Seq::<String>::empty(),
    }
}

/// `a`, else `b`.
fn or_else(a: Option<String>, b: Option<String>) -> (r: Option<String>)
    ensures
        ostr(r) == either(ostr(a), ostr(b)),
{
    match a {
        Some(x) => Some(x),
        None => b,
    }
}

/// A flag: set on the command line, or `true` in the configuration.
fn flag_exec(arg: bool, conf: Option<bool>) -> (r: bool)
    ensures
        r == flag(arg, conf),
{
    arg || match conf {
        Some(b) => b,
        None => false,
    }
}

/// Resolve the generation options from the command line and the
/// configuration (see `resolve_error` and `resolved`).
pub fn resolve_options(args: GenerateArgs, config: Config) -> (r: Result<GenerateOptions, String>)
    ensures
        match r {
            Ok(o) => resolve_error(args, config) is None && resolved(args, config, o),
            Err(e) => resolve_error(args, config) == Some(e@),
        },
{
    let ghost a0 = args;
    let ghost c0 = config;
    let input = match or_else(args.input, config.input) {
        Some(i) => i,
        None => {
            return Err(
                text::string_of(
                    text::chars_of("--input is required (or set `input` in oa-forge.toml)").as_slice(),
                ),
            );
        },
    };
    let output = match or_else(args.output, config.output) {
        Some(o) => o,
        None => text::owned("./src/api"),
    };
    let client_type = match args.client {
        Some(c) => c,
        None => match config.client {
            Some(c) => c,
            None => ClientType::Fetch,
        },
    };
    let custom_client_path = or_else(args.custom_client_path, config.custom_client_path);
    let custom_client_name = if !text::str_equal(args.custom_client_name.as_str(), "customInstance") {
        args.custom_client_name
    } else {
        match config.custom_client_name {
            Some(n) => n,
            None => text::owned("customInstance"),
        }
    };
    let client_style = match &custom_client_path {
        Some(ccp) => {
            let import_path = compute_relative_import(output.as_str(), ccp.as_str());
            assert(custom_client_name@ == spec_client_name(a0, c0));
            let st = ClientStyle::Custom(CustomClient { import_path, export_name: custom_client_name });
            assert(style_of(st, Some(ccp@), spec_client_name(a0, c0), output@));
            st
        },
        None => ClientStyle::Fetch,
    };
    assert(style_of(client_style, ostr(custom_client_path), spec_client_name(a0, c0), output@));
    let hooks = flag_exec(args.hooks, config.hooks);
    if custom_client_path.is_some() && client_type != ClientType::Fetch {
        return Err(
            text::string_of(
                text::chars_of("--custom-client-path is only supported with --client fetch").as_slice(),
            ),
        );
    }
    if custom_client_path.is_some() && hooks {
        return Err(
            text::string_of(
                text::chars_of(
                    "--hooks is not compatible with --custom-client-path (hooks require RequestConfig from the fetch client)",
                ).as_slice(),
            ),
        );
    }
    let split = if args.split != SplitMode::Single {
        args.split
    } else {
        match config.split {
            Some(s) => s,
            None => SplitMode::Single,
        }
    };
    let query_framework = if args.query_framework != QueryFramework::React {
        args.query_framework
    } else {
        match config.query_framework {
            Some(q) => q,
            None => QueryFramework::React,
        }
    };
    let header = match config.header {
        Some(h) => h,
        None => default_header(),
    };
    let after_write = match config.after_write {
        Some(v) => v,
        None => Vec::new(),
    };
    let o = GenerateOptions {
            input,
            output,
            client_type,
            hooks,
            zod: flag_exec(args.zod, config.zod),
            valibot: flag_exec(args.valibot, config.valibot),
            msw: flag_exec(args.msw, config.msw),
            mock: flag_exec(args.mock, config.mock),
            dry_run: args.dry_run,
            no_validate: args.no_validate,
            split,
            query_framework,
            client_style,
            custom_client_path,
            overrides: config.overrides,
            header,
            after_write,
        };
    Ok(o)
}

/// Whether a run watches the spec for changes after generating: watch was
/// asked for and this is not a dry run.
pub fn watches(args: &GenerateArgs) -> (r: bool)
    ensures
        r == (args.watch && !args.dry_run),
{
    args.watch && !args.dry_run
}

/// A change that the spec watcher reports.
#[derive(Debug, Clone, Copy, PartialEq, Eq, Structural)]
pub enum WatchEvent {
    Modify,
    Create,
    Other,
}

/// Whether a change reported by the watcher calls for a new generation: a
/// modification or a creation.
pub fn triggers_regeneration(e: WatchEvent) -> (r: bool)
    ensures
        r == (e == WatchEvent::Modify || e == WatchEvent::Create),
{
    match e {
        WatchEvent::Modify => true,
        WatchEvent::Create => true,
        WatchEvent::Other => false,
    }
}

// ---- Finding the configuration ----------------------------------------------------

/// How a configuration file is read.
#[derive(Debug, Clone, Copy, PartialEq, Eq, Structural)]
pub enum ConfigFormat {
    /// A TypeScript module whose default export is the configuration.
    TypeScript,
    Json,
    Toml,
}

/// The format of a configuration file, by its extension: `ts` and `mts` are
/// TypeScript, `json` is JSON, anything else is TOML.
pub open spec fn spec_config_format(ext: Seq<char>) -> ConfigFormat {
    if ext == "ts"@ || ext == "mts"@ {
        ConfigFormat::TypeScript
    } else if ext == "json"@ {
        ConfigFormat::Json
    } else {
        ConfigFormat::Toml
    }
}

/// The format of a configuration file given by its extension.
pub fn config_format(ext: &str) -> (r: ConfigFormat)
    ensures
        r == spec_config_format(ext@),
{
    if text::str_equal(ext, "ts") || text::str_equal(ext, "mts") {
        ConfigFormat::TypeScript
    } else if text::str_equal(ext, "json") {
        ConfigFormat::Json
    } else {
        ConfigFormat::Toml
    }
}

/// The files looked for when no configuration is given, in the order they
/// are tried: TypeScript first, then JSON, then TOML.
pub open spec fn spec_config_candidates() -> Seq<(Seq<char>, ConfigFormat)> {
    seq![
        ("oa-forge.config.ts"@, ConfigFormat::TypeScript),
        ("oa-forge.config.mts"@, ConfigFormat::TypeScript),
        ("oa-forge.config.json"@, ConfigFormat::Json),
        (".oa-forge.json"@, ConfigFormat::Json),
        ("oa-forge.toml"@, ConfigFormat::Toml),
        (".oa-forge.toml"@, ConfigFormat::Toml),
    ]
}

/// The configuration files to try, in order (see `spec_config_candidates`).
pub fn config_candidates() -> (r: Vec<(String, ConfigFormat)>)
    ensures
        r@.len() == spec_config_candidates().len(),
        forall|i: int|
            0 <= i < r@.len() ==> (#[trigger] r@[i]).0@ == spec_config_candidates()[i].0 && r@[i].1
                == spec_config_candidates()[i].1,
{
    let mut r: Vec<(String, ConfigFormat)> = Vec::new();
    r.push((text::owned("oa-forge.config.ts"), ConfigFormat::TypeScript));
    r.push((text::owned("oa-forge.config.mts"), ConfigFormat::TypeScript));
    r.push((text::owned("oa-forge.config.json"), ConfigFormat::Json));
    r.push((text::owned(".oa-forge.json"), ConfigFormat::Json));
    r.push((text::owned("oa-forge.toml"), ConfigFormat::Toml));
    r.push((text::owned(".oa-forge.toml"), ConfigFormat::Toml));
    r
}

/// The script that prints, as JSON, the default export of the TypeScript
/// module at `abs_path`.
pub open spec fn spec_ts_eval_script(abs_path: Seq<char>) -> Seq<char> {
    "import c from '"@ + abs_path + "'; process.stdout.write(JSON.stringify(c.default ?? c))"@
}

/// See `spec_ts_eval_script`.
pub fn ts_eval_script(abs_path: &str) -> (r: String)
    ensures
        r@ == spec_ts_eval_script(abs_path@),
{
    text::cat3("import c from '", abs_path, "'; process.stdout.write(JSON.stringify(c.default ?? c))")
}

/// The shell command that an after-write hook runs: the hook's command with
/// the output directory as its last argument.
pub fn hook_command(cmd: &str, output_dir: &str) -> (r: String)
    ensures
        r@ == cmd@ + " "@ + output_dir@,
{
    text::cat3(cmd, " ", output_dir)
}

/// The command line wins, and the configuration fills in every option that
/// the command line leaves unset: for options that resolve, the client, the
/// input and the output are the command line's when it gives them, else the
/// configuration's when it gives them, else the defaults (fetch, and
/// `./src/api` for the output); each generator flag is on exactly when the
/// command line or the configuration turns it on; split mode and query
/// framework are the command line's when it gives one other than the
/// default, else the configuration's, else the default.
pub proof fn law_config_fills_unset_options(args: GenerateArgs, config: Config, o: GenerateOptions)
    requires
        resolved(args, config, o),
    ensures
        args.client matches Some(c) ==> o.client_type == c,
        config.client matches Some(c) ==> (args.client is None ==> o.client_type == c),
        args.client is None && config.client is None ==> o.client_type == ClientType::Fetch,
        args.input matches Some(i) ==> o.input@ == i@,
        config.input matches Some(i) ==> (args.input is None ==> o.input@ == i@),
        args.output matches Some(x) ==> o.output@ == x@,
        config.output matches Some(x) ==> (args.output is None ==> o.output@ == x@),
        args.output is None && config.output is None ==> o.output@ == "./src/api"@,
        o.hooks <==> (args.hooks || config.hooks == Some(true)),
        o.zod <==> (args.zod || config.zod == Some(true)),
        o.valibot <==> (args.valibot || config.valibot == Some(true)),
        o.msw <==> (args.msw || config.msw == Some(true)),
        o.mock <==> (args.mock || config.mock == Some(true)),
        args.split != SplitMode::Single ==> o.split == args.split,
        config.split matches Some(m) ==> (args.split == SplitMode::Single ==> o.split == m),
        args.split == SplitMode::Single && config.split is None ==> o.split == SplitMode::Single,
        args.query_framework != QueryFramework::React ==> o.query_framework == args.query_framework,
        config.query_framework matches Some(q) ==> (args.query_framework == QueryFramework::React
            ==> o.query_framework == q),
        args.query_framework == QueryFramework::React && config.query_framework is None
            ==> o.query_framework == QueryFramework::React,
{
}

/// Options resolve exactly when an input is given (on the command line or
/// in the configuration) and, when a custom client path is given (either
/// way), the client is fetch and the hooks are off.
pub proof fn law_options_resolve_when(args: GenerateArgs, config: Config)
    ensures
        resolve_error(args, config) is None <==> ((args.input is Some || config.input is Some) && ((
        args.custom_client_path is None && config.custom_client_path is None) || (spec_client(args, config)
            == ClientType::Fetch && !args.hooks && config.hooks != Some(true)))),
{
}

} // verus!
