//! Migration of an Orval project configuration to an oa-forge configuration:
//! which settings carry over (as config lines and a note of what was
//! converted), which deserve a warning, and which are not supported.
//!
//! The Orval configuration is a JSON value tree, objects being mappings with
//! string keys.
use vstd::prelude::*;

use crate::ir::strings_view;
use crate::text;
use crate::value::{Value, ValueV};
use crate::value;

verus! {

// ---- Reading the JSON tree -------------------------------------------------------

/// `Value::get`: the entry `k` of an object.
pub open spec fn get(v: ValueV, k: Seq<char>) -> Option<ValueV> {
    value::spec_get(v, k)
}

/// `v[k]`: the entry `k` of an object, `null` when there is none.
pub open spec fn idx(v: ValueV, k: Seq<char>) -> ValueV {
    match get(v, k) {
        Some(x) => x,
        None => ValueV::Null,
    }
}

/// The entry `k` is there and is not `null`.
pub open spec fn set_at(v: ValueV, k: Seq<char>) -> bool {
    match get(v, k) {
        Some(x) => !(x is Null),
        None => false,
    }
}

/// The entry `k` is `true`.
pub open spec fn true_at(v: ValueV, k: Seq<char>) -> bool {
    get(v, k) == Some(ValueV::Bool(true))
}

/// The entry `k` is an object.
pub open spec fn object_at(v: ValueV, k: Seq<char>) -> bool {
    match get(v, k) {
        Some(x) => x is Mapping,
        None => false,
    }
}

/// The string of `v[k]`.
pub open spec fn str_at(v: ValueV, k: Seq<char>) -> Option<Seq<char>> {
    value::opt_str(get(v, k))
}

/// The target of an `input` or `output` setting: the string itself, or the
/// `target` string of an object.
pub open spec fn target_of(v: ValueV) -> Option<Seq<char>> {
    match v {
        ValueV::String(s) => Some(s),
        _ => str_at(v, "target"@),
    }
}

// ---- What the migration produces --------------------------------------------------

/// What a migration comes to: the config lines, and the notes on what was
/// converted, what deserves a warning and what is not supported.
pub struct MigrateV {
    pub lines: Seq<Seq<char>>,
    pub converted: Seq<Seq<char>>,
    pub warnings: Seq<Seq<char>>,
    pub unsupported: Seq<Seq<char>>,
}

/// Nothing yet.
pub open spec fn empty_migration() -> MigrateV {
    MigrateV { lines: seq![], converted: seq![], warnings: seq![], unsupported: seq![] }
}

/// A config line added, with the note of what it converts.
pub open spec fn with_conv(a: MigrateV, line: Seq<char>, note: Seq<char>) -> MigrateV {
    MigrateV { lines: a.lines.push(line), converted: a.converted.push(note), ..a }
}

/// Two config lines added, with the note of what they convert.
pub open spec fn with_conv2(a: MigrateV, l1: Seq<char>, l2: Seq<char>, note: Seq<char>) -> MigrateV {
    MigrateV { lines: a.lines.push(l1).push(l2), converted: a.converted.push(note), ..a }
}

/// A warning added.
pub open spec fn with_warn(a: MigrateV, w: Seq<char>) -> MigrateV {
    MigrateV { warnings: a.warnings.push(w), ..a }
}

/// An unsupported setting noted.
pub open spec fn with_unsup(a: MigrateV, u: Seq<char>) -> MigrateV {
    MigrateV { unsupported: a.unsupported.push(u), ..a }
}

/// `with_unsup` when `cond` holds.
pub open spec fn unsup_if(a: MigrateV, cond: bool, u: Seq<char>) -> MigrateV {
    if cond {
        with_unsup(a, u)
    } else {
        a
    }
}

/// The `input` or `output` target (`key`), when there is one.
pub open spec fn mig_target(a: MigrateV, key: Seq<char>, v: ValueV) -> MigrateV {
    match target_of(v) {
        Some(t) => with_conv(
            a,
            "  "@ + key + ": '"@ + t + "',"@,
            key + ".target → "@ + key + ": \""@ + t + "\""@,
        ),
        None => a,
    }
}

/// The `input` setting: its target, and the input filters and transformer,
/// which are not supported.
pub open spec fn mig_input(a: MigrateV, project: ValueV) -> MigrateV {
    let iv = idx(project, "input"@);
    let a1 = mig_target(a, "input"@, iv);
    let a2 = unsup_if(
        a1,
        iv is Mapping && set_at(iv, "filters"@),
        "input.filters (tag/schema filtering) → not yet supported"@,
    );
    unsup_if(
        a2,
        iv is Mapping && (match get(iv, "override"@) {
            Some(o) => get(o, "transformer"@) is Some,
            None => false,
        }),
        "input.override.transformer → not yet supported"@,
    )
}

/// The split mode that an Orval output mode maps to.
pub open spec fn split_of(mode: Seq<char>) -> Option<Seq<char>> {
    if mode == "single"@ {
        Some("single"@)
    } else if mode == "tags"@ || mode == "tags-split"@ {
        Some("tag"@)
    } else if mode == "split"@ {
        Some("tag"@)
    } else {
        None
    }
}

/// `output.mode` becomes `split` (an unknown mode is noted and becomes
/// `single`).
pub open spec fn mig_mode(a: MigrateV, ov: ValueV) -> MigrateV {
    match str_at(ov, "mode"@) {
        Some(mode) => {
            let sv = match split_of(mode) {
                Some(x) => x,
                None => "single"@,
            };
            let a1 = unsup_if(
                a,
                split_of(mode) is None,
                "output.mode: \""@ + mode + "\" → unknown mode"@,
            );
            with_conv(
                a1,
                "  split: '"@ + sv + "',"@,
                "output.mode: \""@ + mode + "\" → split: \""@ + sv + "\""@,
            )
        },
        None => a,
    }
}

/// `output.httpClient` becomes `client` for fetch, axios and angular.
pub open spec fn mig_http(a: MigrateV, ov: ValueV) -> MigrateV {
    match str_at(ov, "httpClient"@) {
        Some(h) => if h == "fetch"@ || h == "axios"@ || h == "angular"@ {
            with_conv(
                a,
                "  client: '"@ + h + "',"@,
                "output.httpClient: \""@ + h + "\" → client: \""@ + h + "\""@,
            )
        } else {
            with_unsup(a, "output.httpClient: \""@ + h + "\" → not supported"@)
        },
        None => a,
    }
}

/// The query framework of an Orval query client.
pub open spec fn framework_of(c: Seq<char>) -> Option<Seq<char>> {
    if c == "react-query"@ {
        Some("react"@)
    } else if c == "vue-query"@ {
        Some("vue"@)
    } else if c == "solid-query"@ {
        Some("solid"@)
    } else if c == "svelte-query"@ {
        Some("svelte"@)
    } else {
        None
    }
}

/// `output.client`: a query client turns hooks on with its framework, `zod`
/// turns zod on, `hono` is the client; `axios` and `angular` are the client
/// unless `httpClient` says which; `fetch` and `axios-functions` are left to
/// `httpClient`; anything else is not supported.
pub open spec fn mig_client(a: MigrateV, ov: ValueV) -> MigrateV {
    match str_at(ov, "client"@) {
        Some(c) => match framework_of(c) {
            Some(fw) => with_conv2(
                a,
                "  hooks: true,"@,
                "  query_framework: '"@ + fw + "',"@,
                "output.client: \""@ + c + "\" → hooks: true, query_framework: \""@ + fw + "\""@,
            ),
            None => if c == "zod"@ {
                with_conv(a, "  zod: true,"@, "output.client: \"zod\" → zod: true"@)
            } else if c == "hono"@ {
                with_conv(a, "  client: 'hono',"@, "output.client: \"hono\" → client: \"hono\""@)
            } else if c == "axios"@ || c == "angular"@ {
                if str_at(ov, "httpClient"@) is None {
                    with_conv(
                        a,
                        "  client: '"@ + c + "',"@,
                        "output.client: \""@ + c + "\" → client: \""@ + c + "\""@,
                    )
                } else {
                    a
                }
            } else if c == "fetch"@ || c == "axios-functions"@ {
                a
            } else {
                with_unsup(a, "output.client: \""@ + c + "\" → not supported"@)
            },
        },
        None => a,
    }
}

/// `output.mock` (true or an object) turns mocks and MSW on; `clean` and
/// `baseUrl` are not supported; `prettier` and `biome` get a warning.
pub open spec fn mig_output_flags(a: MigrateV, ov: ValueV) -> MigrateV {
    let a1 = match get(ov, "mock"@) {
        Some(m) => if m == ValueV::Bool(true) || m is Mapping {
            with_conv2(a, "  mock: true,"@, "  msw: true,"@, "output.mock → mock: true, msw: true"@)
        } else {
            a
        },
        None => a,
    };
    let a2 = unsup_if(a1, set_at(ov, "clean"@), "output.clean → not yet supported"@);
    let a3 = unsup_if(a2, set_at(ov, "baseUrl"@), "output.baseUrl → not yet supported"@);
    let a4 = if true_at(ov, "prettier"@) {
        with_warn(
            a3,
            "output.prettier → oa-forge has a built-in formatter (no external dependency needed)"@,
        )
    } else {
        a3
    };
    if true_at(ov, "biome"@) {
        with_warn(
            a4,
            "output.biome → oa-forge has a built-in formatter (no external dependency needed)"@,
        )
    } else {
        a4
    }
}

/// `override.mutator`: a path string, or an object with `path` and `name`
/// (a default export gets a warning; `alias` and `external` are not
/// supported).
pub open spec fn mig_mutator(a: MigrateV, o: ValueV) -> MigrateV {
    match get(o, "mutator"@) {
        Some(m) => match m {
            ValueV::String(p) => with_conv(
                a,
                "  custom_client_path: '"@ + p + "',"@,
                "override.mutator: \""@ + p + "\" → custom_client_path"@,
            ),
            ValueV::Mapping(_) => {
                let a1 = match str_at(m, "path"@) {
                    Some(p) => with_conv(
                        a,
                        "  custom_client_path: '"@ + p + "',"@,
                        "override.mutator.path → custom_client_path: \""@ + p + "\""@,
                    ),
                    None => a,
                };
                let a2 = match str_at(m, "name"@) {
                    Some(n) => with_conv(
                        a1,
                        "  custom_client_name: '"@ + n + "',"@,
                        "override.mutator.name → custom_client_name: \""@ + n + "\""@,
                    ),
                    None => if true_at(m, "default"@) {
                        with_warn(
                            a1,
                            "override.mutator.default: true → oa-forge only supports named exports; rename your default export"@,
                        )
                    } else {
                        a1
                    },
                };
                let a3 = unsup_if(a2, set_at(m, "alias"@), "override.mutator.alias → not supported"@);
                unsup_if(a3, set_at(m, "external"@), "override.mutator.external → not supported"@)
            },
            _ => a,
        },
        None => a,
    }
}

/// `override.header`: a string header, `false` for none; anything else is
/// not supported.
pub open spec fn mig_header(a: MigrateV, o: ValueV) -> MigrateV {
    match get(o, "header"@) {
        Some(h) => match h {
            ValueV::String(s) => with_conv(a, "  header: '"@ + s + "',"@, "override.header → header"@),
            ValueV::Bool(false) => with_conv(
                a,
                "  header: '',"@,
                "override.header: false → header: \"\" (empty, disables header)"@,
            ),
            _ => with_unsup(a, "override.header (function) → only string headers supported"@),
        },
        None => a,
    }
}

/// `override.operations`: a warning with their number when there are any.
pub open spec fn mig_operations(a: MigrateV, o: ValueV) -> MigrateV {
    match get(o, "operations"@) {
        Some(ValueV::Mapping(ops)) => if ops.len() > 0 {
            with_warn(
                a,
                "override.operations: "@ + text::decimal(ops.len())
                    + " operation override(s) found → oa-forge overrides use \"METHOD /path\" keys, not operationId. Manual mapping required."@,
            )
        } else {
            a
        },
        _ => a,
    }
}

/// The rest of `output.override`: query options, per-tag overrides,
/// transformer, useTypeOverInterfaces, enumGenerationType, formData and
/// formUrlEncoded are not supported; zod options turn zod on, and an MSW
/// mock type turns MSW on.
pub open spec fn mig_override_rest(a: MigrateV, o: ValueV) -> MigrateV {
    let a1 = unsup_if(
        a,
        object_at(o, "query"@),
        "override.query (useSuspenseQuery, useInfinite, etc.) → granular query options not yet supported"@,
    );
    let a2 = mig_operations(a1, o);
    let a3 = unsup_if(
        a2,
        object_at(o, "tags"@),
        "override.tags (per-tag overrides) → not yet supported"@,
    );
    let a4 = unsup_if(a3, set_at(o, "transformer"@), "override.transformer → not yet supported"@);
    let a5 = unsup_if(
        a4,
        set_at(o, "useTypeOverInterfaces"@),
        "override.useTypeOverInterfaces → not yet supported"@,
    );
    let a6 = unsup_if(
        a5,
        set_at(o, "enumGenerationType"@),
        "override.enumGenerationType → not yet supported"@,
    );
    let a7 = unsup_if(a6, set_at(o, "formData"@), "override.formData → not yet supported"@);
    let a8 = unsup_if(
        a7,
        set_at(o, "formUrlEncoded"@),
        "override.formUrlEncoded → not yet supported"@,
    );
    let a9 = if object_at(o, "zod"@) {
        with_conv(
            a8,
            "  zod: true,"@,
            "override.zod → zod: true (granular zod options not yet supported)"@,
        )
    } else {
        a8
    };
    if str_at(idx(o, "mock"@), "type"@) == Some("msw"@) {
        with_conv(a9, "  msw: true,"@, "override.mock.type: \"msw\" → msw: true"@)
    } else {
        a9
    }
}

/// `output.override`, when it is an object.
pub open spec fn mig_override(a: MigrateV, ov: ValueV) -> MigrateV {
    let o = idx(ov, "override"@);
    if o is Mapping {
        mig_override_rest(mig_header(mig_mutator(a, o), o), o)
    } else {
        a
    }
}

/// The string items of a list, each in single quotes.
pub open spec fn quoted_strs(items: Seq<ValueV>) -> Seq<Seq<char>>
    decreases items.len(),
{
    if items.len() == 0 {
        seq![]
    } else {
        let q = quoted_strs(items.drop_last());
        match items.last() {
            ValueV::String(s) => q.push("'"@ + s + "'"@),
            _ => q,
        }
    }
}

/// `hooks.afterAllFilesWrite` (a command, or a list of them) becomes
/// `after_write`.
pub open spec fn mig_hooks(a: MigrateV, project: ValueV) -> MigrateV {
    match get(project, "hooks"@) {
        Some(h) => match get(h, "afterAllFilesWrite"@) {
            Some(ValueV::String(cmd)) => with_conv(
                a,
                "  after_write: ['"@ + cmd + "'],"@,
                "hooks.afterAllFilesWrite → after_write: [\""@ + cmd + "\"]"@,
            ),
            Some(ValueV::Sequence(items)) => if quoted_strs(items).len() > 0 {
                with_conv(
                    a,
                    "  after_write: ["@ + text::join(quoted_strs(items), ", "@) + "],"@,
                    "hooks.afterAllFilesWrite → after_write"@,
                )
            } else {
                a
            },
            _ => a,
        },
        None => a,
    }
}

/// What migrating an Orval project gives: its input, output, mode, HTTP
/// client, client, output flags, overrides and hooks, in that order.
pub open spec fn spec_migrate(project: ValueV) -> MigrateV {
    let ov = idx(project, "output"@);
    let a1 = mig_input(empty_migration(), project);
    let a2 = mig_target(a1, "output"@, ov);
    let a3 = mig_mode(a2, ov);
    let a4 = mig_http(a3, ov);
    let a5 = mig_client(a4, ov);
    let a6 = mig_output_flags(a5, ov);
    let a7 = mig_override(a6, ov);
    mig_hooks(a7, project)
}

// ---- Executable migration ----------------------------------------------------------

/// The result of migrating one Orval project.
pub struct MigrateResult {
    pub config_lines: Vec<String>,
    pub converted: Vec<String>,
    pub warnings: Vec<String>,
    pub unsupported: Vec<String>,
}

impl View for MigrateResult {
    type V = MigrateV;

    open spec fn view(&self) -> MigrateV {
        MigrateV {
            lines: strings_view(self.config_lines@),
            converted: strings_view(self.converted@),
            warnings: strings_view(self.warnings@),
            unsupported: strings_view(self.unsupported@),
        }
    }
}

/// Appends `s` to a list of strings.
fn push_string(v: &mut Vec<String>, s: String)
    ensures
        strings_view(final(v)@) == strings_view(old(v)@).push(s@),
{
    let ghost before = strings_view(v@);
    v.push(s);
    assert(strings_view(v@) =~= before.push(s@));
}

impl MigrateResult {
    fn conv(&mut self, line: String, note: String)
        ensures
            final(self)@ == with_conv(old(self)@, line@, note@),
    {
        push_string(&mut self.config_lines, line);
        push_string(&mut self.converted, note);
    }

    fn conv2(&mut self, l1: String, l2: String, note: String)
        ensures
            final(self)@ == with_conv2(old(self)@, l1@, l2@, note@),
    {
        push_string(&mut self.config_lines, l1);
        push_string(&mut self.config_lines, l2);
        push_string(&mut self.converted, note);
    }

    fn warn(&mut self, w: String)
        ensures
            final(self)@ == with_warn(old(self)@, w@),
    {
        push_string(&mut self.warnings, w);
    }

    fn unsup(&mut self, u: String)
        ensures
            final(self)@ == with_unsup(old(self)@, u@),
    {
        push_string(&mut self.unsupported, u);
    }

    fn unsup_if(&mut self, cond: bool, u: &str)
        ensures
            final(self)@ == unsup_if(old(self)@, cond, u@),
    {
        if cond {
            self.unsup(text::owned(u));
        }
    }
}

/// The view of an optional value read as JSON: absent is `null`.
pub open spec fn jv(o: Option<&Value>) -> ValueV {
    match o {
        Some(v) => v@,
        None => ValueV::Null,
    }
}

/// `v[k]` (absent when `v` is absent, that is `null`).
fn at<'a>(v: Option<&'a Value>, k: &str) -> (r: Option<&'a Value>)
    ensures
        value::opt_view(r) == get(jv(v), k@),
        jv(r) == idx(jv(v), k@),
{
    match v {
        Some(x) => value::get(x, k),
        None => None,
    }
}

/// Whether the entry `k` of `v` is there and not `null`.
fn set_at_exec(v: Option<&Value>, k: &str) -> (r: bool)
    ensures
        r == set_at(jv(v), k@),
{
    match at(v, k) {
        Some(Value::Null) => false,
        Some(_) => true,
        None => false,
    }
}

/// Whether the entry `k` of `v` is `true`.
fn true_at_exec(v: Option<&Value>, k: &str) -> (r: bool)
    ensures
        r == true_at(jv(v), k@),
{
    match at(v, k) {
        Some(Value::Bool(b)) => *b,
        _ => false,
    }
}

/// Whether the entry `k` of `v` is an object.
fn object_at_exec(v: Option<&Value>, k: &str) -> (r: bool)
    ensures
        r == object_at(jv(v), k@),
{
    match at(v, k) {
        Some(Value::Mapping(_)) => true,
        _ => false,
    }
}

/// The string of `v[k]`.
fn str_at_exec<'a>(v: Option<&'a Value>, k: &str) -> (r: Option<&'a String>)
    ensures
        match r {
            Some(x) => str_at(jv(v), k@) == Some(x@),
            None => str_at(jv(v), k@) is None,
        },
{
    value::as_str(at(v, k))
}

/// Whether `v` is an object.
fn is_object(v: Option<&Value>) -> (r: bool)
    ensures
        r == (jv(v) is Mapping),
{
    proof {
        reveal_with_fuel(value::value_view, 2);
    }
    match v {
        Some(Value::Mapping(_)) => true,
        _ => false,
    }
}

/// See `mig_target`.
fn mig_target_exec(a: &mut MigrateResult, key: &str, v: Option<&Value>)
    ensures
        final(a)@ == mig_target(old(a)@, key@, jv(v)),
{
    let t = match v {
        Some(Value::String(x)) => Some(x),
        _ => str_at_exec(v, "target"),
    };
    proof {
        reveal_with_fuel(value::value_view, 2);
    }
    match t {
        Some(t) => {
            let line = text::cat5("  ", key, ": '", t.as_str(), "',");
            let n1 = text::cat5(key, ".target → ", key, ": \"", t.as_str());
            let note = text::concat(n1.as_str(), "\"");
            a.conv(line, note);
        },
        None => {},
    }
}

/// See `mig_input`.
fn mig_input_exec(a: &mut MigrateResult, project: &Value)
    ensures
        final(a)@ == mig_input(old(a)@, project@),
{
    let iv = at(Some(project), "input");
    mig_target_exec(a, "input", iv);
    let obj = is_object(iv);
    a.unsup_if(
        obj && set_at_exec(iv, "filters"),
        "input.filters (tag/schema filtering) → not yet supported",
    );
    let tr = match at(iv, "override") {
        Some(o) => at(Some(o), "transformer").is_some(),
        None => false,
    };
    a.unsup_if(obj && tr, "input.override.transformer → not yet supported");
}

/// See `split_of`.
fn split_of_exec(mode: &str) -> (r: Option<&'static str>)
    ensures
        match r {
            Some(x) => split_of(mode@) == Some(x@),
            None => split_of(mode@) is None,
        },
{
    if text::str_equal(mode, "single") {
        Some("single")
    } else if text::str_equal(mode, "tags") || text::str_equal(mode, "tags-split") {
        Some("tag")
    } else if text::str_equal(mode, "split") {
        Some("tag")
    } else {
        None
    }
}

/// See `mig_mode`.
fn mig_mode_exec(a: &mut MigrateResult, ov: Option<&Value>)
    ensures
        final(a)@ == mig_mode(old(a)@, jv(ov)),
{
    match str_at_exec(ov, "mode") {
        Some(mode) => {
            let sv = match split_of_exec(mode.as_str()) {
                Some(x) => x,
                None => {
                    a.unsup(text::cat3("output.mode: \"", mode.as_str(), "\" → unknown mode"));
                    "single"
                },
            };
            let line = text::cat3("  split: '", sv, "',");
            let note = text::cat5("output.mode: \"", mode.as_str(), "\" → split: \"", sv, "\"");
            a.conv(line, note);
        },
        None => {},
    }
}

/// See `mig_http`.
fn mig_http_exec(a: &mut MigrateResult, ov: Option<&Value>)
    ensures
        final(a)@ == mig_http(old(a)@, jv(ov)),
{
    match str_at_exec(ov, "httpClient") {
        Some(h) => {
            let hs = h.as_str();
            if text::str_equal(hs, "fetch") || text::str_equal(hs, "axios") || text::str_equal(
                hs,
                "angular",
            ) {
                let line = text::cat3("  client: '", hs, "',");
                let note = text::cat5("output.httpClient: \"", hs, "\" → client: \"", hs, "\"");
                a.conv(line, note);
            } else {
                a.unsup(text::cat3("output.httpClient: \"", hs, "\" → not supported"));
            }
        },
        None => {},
    }
}

/// See `framework_of`.
fn framework_of_exec(c: &str) -> (r: Option<&'static str>)
    ensures
        match r {
            Some(x) => framework_of(c@) == Some(x@),
            None => framework_of(c@) is None,
        },
{
    if text::str_equal(c, "react-query") {
        Some("react")
    } else if text::str_equal(c, "vue-query") {
        Some("vue")
    } else if text::str_equal(c, "solid-query") {
        Some("solid")
    } else if text::str_equal(c, "svelte-query") {
        Some("svelte")
    } else {
        None
    }
}

/// See `mig_client`.
fn mig_client_exec(a: &mut MigrateResult, ov: Option<&Value>)
    ensures
        final(a)@ == mig_client(old(a)@, jv(ov)),
{
    match str_at_exec(ov, "client") {
        Some(c) => {
            let cs = c.as_str();
            match framework_of_exec(cs) {
                Some(fw) => {
                    let l2 = text::cat3("  query_framework: '", fw, "',");
                    let n1 = text::cat3("output.client: \"", cs, "\" → hooks: true, query_framework: \"");
                    let note = text::cat3(n1.as_str(), fw, "\"");
                    a.conv2(text::owned("  hooks: true,"), l2, note);
                },
                None => {
                    if text::str_equal(cs, "zod") {
                        a.conv(text::owned("  zod: true,"), text::owned("output.client: \"zod\" → zod: true"));
                    } else if text::str_equal(cs, "hono") {
                        a.conv(text::owned("  client: 'hono',"), text::owned("output.client: \"hono\" → client: \"hono\""));
                    } else if text::str_equal(cs, "axios") || text::str_equal(cs, "angular") {
                        if str_at_exec(ov, "httpClient").is_none() {
                            let line = text::cat3("  client: '", cs, "',");
                            let note = text::cat5("output.client: \"", cs, "\" → client: \"", cs, "\"");
                            a.conv(line, note);
                        }
                    } else if text::str_equal(cs, "fetch") || text::str_equal(cs, "axios-functions") {
                    } else {
                        a.unsup(text::cat3("output.client: \"", cs, "\" → not supported"));
                    }
                },
            }
        },
        None => {},
    }
}

/// See `mig_output_flags`.
fn mig_output_flags_exec(a: &mut MigrateResult, ov: Option<&Value>)
    ensures
        final(a)@ == mig_output_flags(old(a)@, jv(ov)),
{
    proof {
        reveal_with_fuel(value::value_view, 2);
    }
    match at(ov, "mock") {
        Some(m) => {
            let on = match m {
                Value::Bool(b) => *b,
                Value::Mapping(_) => true,
                _ => false,
            };
            if on {
                a.conv2(text::owned("  mock: true,"), text::owned("  msw: true,"), text::owned("output.mock → mock: true, msw: true"));
            }
        },
        None => {},
    }
    a.unsup_if(set_at_exec(ov, "clean"), "output.clean → not yet supported");
    a.unsup_if(set_at_exec(ov, "baseUrl"), "output.baseUrl → not yet supported");
    if true_at_exec(ov, "prettier") {
        a.warn(
            text::owned("output.prettier → oa-forge has a built-in formatter (no external dependency needed)"),
        );
    }
    if true_at_exec(ov, "biome") {
        a.warn(
            text::owned("output.biome → oa-forge has a built-in formatter (no external dependency needed)"),
        );
    }
}

/// See `mig_mutator`.
fn mig_mutator_exec(a: &mut MigrateResult, o: Option<&Value>)
    ensures
        final(a)@ == mig_mutator(old(a)@, jv(o)),
{
    proof {
        reveal_with_fuel(value::value_view, 2);
    }
    match at(o, "mutator") {
        Some(Value::String(p)) => {
            let line = text::cat3("  custom_client_path: '", p.as_str(), "',");
            let note = text::cat3("override.mutator: \"", p.as_str(), "\" → custom_client_path");
            a.conv(line, note);
        },
        Some(m) => {
            if is_object(Some(m)) {
                let mo = Some(m);
                match str_at_exec(mo, "path") {
                    Some(p) => {
                        let line = text::cat3("  custom_client_path: '", p.as_str(), "',");
                        let note = text::cat3(
                            "override.mutator.path → custom_client_path: \"",
                            p.as_str(),
                            "\"",
                        );
                        a.conv(line, note);
                    },
                    None => {},
                }
                match str_at_exec(mo, "name") {
                    Some(n) => {
                        let line = text::cat3("  custom_client_name: '", n.as_str(), "',");
                        let note = text::cat3(
                            "override.mutator.name → custom_client_name: \"",
                            n.as_str(),
                            "\"",
                        );
                        a.conv(line, note);
                    },
                    None => {
                        if true_at_exec(mo, "default") {
                            a.warn(
                                text::owned(
                                    "override.mutator.default: true → oa-forge only supports named exports; rename your default export",
                                ),
                            );
                        }
                    },
                }
                a.unsup_if(set_at_exec(mo, "alias"), "override.mutator.alias → not supported");
                a.unsup_if(set_at_exec(mo, "external"), "override.mutator.external → not supported");
            }
        },
        None => {},
    }
}

/// See `mig_header`.
fn mig_header_exec(a: &mut MigrateResult, o: Option<&Value>)
    ensures
        final(a)@ == mig_header(old(a)@, jv(o)),
{
    proof {
        reveal_with_fuel(value::value_view, 2);
    }
    match at(o, "header") {
        Some(Value::String(h)) => {
            let line = text::cat3("  header: '", h.as_str(), "',");
            a.conv(line, text::owned("override.header → header"));
        },
        Some(Value::Bool(false)) => {
            a.conv(
                text::owned("  header: '',"),
                text::owned("override.header: false → header: \"\" (empty, disables header)"),
            );
        },
        Some(_) => {
            a.unsup(text::owned("override.header (function) → only string headers supported"));
        },
        None => {},
    }
}

/// See `mig_operations`.
fn mig_operations_exec(a: &mut MigrateResult, o: Option<&Value>)
    ensures
        final(a)@ == mig_operations(old(a)@, jv(o)),
{
    match at(o, "operations") {
        Some(Value::Mapping(ops)) => {
            proof {
                value::lemma_mapping_value_view(*ops);
            }
            if ops.len() > 0 {
                let n = text::decimal_string(ops.len() as u64);
                a.warn(
                    text::cat3(
                        "override.operations: ",
                        n.as_str(),
                        " operation override(s) found → oa-forge overrides use \"METHOD /path\" keys, not operationId. Manual mapping required.",
                    ),
                );
            }
        },
        Some(_) => {
            proof {
                reveal_with_fuel(value::value_view, 2);
            }
        },
        None => {},
    }
}

/// See `mig_override_rest`.
fn mig_override_rest_exec(a: &mut MigrateResult, o: Option<&Value>)
    ensures
        final(a)@ == mig_override_rest(old(a)@, jv(o)),
{
    a.unsup_if(
        object_at_exec(o, "query"),
        "override.query (useSuspenseQuery, useInfinite, etc.) → granular query options not yet supported",
    );
    mig_operations_exec(a, o);
    a.unsup_if(object_at_exec(o, "tags"), "override.tags (per-tag overrides) → not yet supported");
    a.unsup_if(set_at_exec(o, "transformer"), "override.transformer → not yet supported");
    a.unsup_if(
        set_at_exec(o, "useTypeOverInterfaces"),
        "override.useTypeOverInterfaces → not yet supported",
    );
    a.unsup_if(
        set_at_exec(o, "enumGenerationType"),
        "override.enumGenerationType → not yet supported",
    );
    a.unsup_if(set_at_exec(o, "formData"), "override.formData → not yet supported");
    a.unsup_if(set_at_exec(o, "formUrlEncoded"), "override.formUrlEncoded → not yet supported");
    if object_at_exec(o, "zod") {
        a.conv(
            text::owned("  zod: true,"),
            text::owned("override.zod → zod: true (granular zod options not yet supported)"),
        );
    }
    let msw = match str_at_exec(at(o, "mock"), "type") {
        Some(t) => text::str_equal(t.as_str(), "msw"),
        None => false,
    };
    if msw {
        a.conv(text::owned("  msw: true,"), text::owned("override.mock.type: \"msw\" → msw: true"));
    }
}

/// See `quoted_strs`.
fn quoted_strs_exec(items: &Vec<Value>) -> (r: Vec<String>)
    ensures
        strings_view(r@) == quoted_strs(value::values_view(items@)),
{
    let ghost iv = value::values_view(items@);
    let mut out: Vec<String> = Vec::new();
    let mut i: usize = 0;
    assert(iv.take(0) =~= Seq::<ValueV>::empty());
    assert(strings_view(out@) =~= Seq::<Seq<char>>::empty());
    while i < items.len()
        invariant
            0 <= i <= items@.len(),
            iv == value::values_view(items@),
            strings_view(out@) == quoted_strs(iv.take(i as int)),
        decreases items@.len() - i,
    {
        proof {
            let t = iv.take(i + 1);
            assert(t.drop_last() =~= iv.take(i as int));
            assert(t.last() == items@[i as int]@);
            reveal_with_fuel(value::value_view, 2);
        }
        match &items[i] {
            Value::String(x) => push_string(&mut out, text::cat3("'", x.as_str(), "'")),
            _ => {},
        }
        i = i + 1;
    }
    assert(iv.take(items@.len() as int) =~= iv);
    out
}

/// See `mig_hooks`.
fn mig_hooks_exec(a: &mut MigrateResult, project: &Value)
    ensures
        final(a)@ == mig_hooks(old(a)@, project@),
{
    proof {
        reveal_with_fuel(value::value_view, 2);
    }
    match at(Some(project), "hooks") {
        Some(h) => match at(Some(h), "afterAllFilesWrite") {
            Some(Value::String(cmd)) => {
                let line = text::cat3("  after_write: ['", cmd.as_str(), "'],");
                let note = text::cat3("hooks.afterAllFilesWrite → after_write: [\"", cmd.as_str(), "\"]");
                a.conv(line, note);
            },
            Some(Value::Sequence(items)) => {
                proof {
                    value::lemma_sequence_view(*items);
                }
                let cmds = quoted_strs_exec(items);
                if cmds.len() > 0 {
                    let joined = text::join_strings(&cmds, ", ");
                    assert(cmds@.map_values(|x: String| x@) =~= strings_view(cmds@));
                    let line = text::cat3("  after_write: [", joined.as_str(), "],");
                    a.conv(line, text::owned("hooks.afterAllFilesWrite → after_write"));
                }
            },
            _ => {},
        },
        None => {},
    }
}

/// Migrates one Orval project configuration (`spec_migrate` says what
/// comes out). The project's name plays no part.
pub fn migrate_orval_project(name: &str, project: &Value) -> (r: MigrateResult)
    ensures
        r@ == spec_migrate(project@),
{
    let mut a = MigrateResult {
        config_lines: Vec::new(),
        converted: Vec::new(),
        warnings: Vec::new(),
        unsupported: Vec::new(),
    };
    assert(strings_view(a.config_lines@) =~= Seq::<Seq<char>>::empty());
    assert(strings_view(a.converted@) =~= Seq::<Seq<char>>::empty());
    assert(strings_view(a.warnings@) =~= Seq::<Seq<char>>::empty());
    assert(strings_view(a.unsupported@) =~= Seq::<Seq<char>>::empty());
    mig_input_exec(&mut a, project);
    let ov = at(Some(project), "output");
    mig_target_exec(&mut a, "output", ov);
    mig_mode_exec(&mut a, ov);
    mig_http_exec(&mut a, ov);
    mig_client_exec(&mut a, ov);
    mig_output_flags_exec(&mut a, ov);
    let o = at(ov, "override");
    if is_object(o) {
        mig_mutator_exec(&mut a, o);
        mig_header_exec(&mut a, o);
        mig_override_rest_exec(&mut a, o);
    }
    mig_hooks_exec(&mut a, project);
    a
}

// ---- Choosing the project ------------------------------------------------------------

/// The text of a key (keys of JSON objects are strings).
pub open spec fn key_text(k: ValueV) -> Seq<char> {
    match k {
        ValueV::String(s) => s,
        _ => ""@,
    }
}

/// The keys of an object, in order.
pub open spec fn keys_of(m: Seq<(ValueV, ValueV)>) -> Seq<Seq<char>> {
    Seq::new(m.len(), |i: int| key_text(m[i].0))
}

/// Why no project could be chosen from an Orval configuration.
pub enum SelectError {
    /// The configuration is not an object.
    NotAnObject,
    /// The project asked for is not there (its name, and the names there are).
    ProjectNotFound { name: String, available: Vec<String> },
    /// Several projects and none asked for (the names there are).
    MultipleProjects { available: Vec<String> },
}

/// What choosing a project comes to.
pub enum SelectV {
    Chosen(Seq<char>, ValueV),
    NotAnObject,
    ProjectNotFound(Seq<char>, Seq<Seq<char>>),
    MultipleProjects(Seq<Seq<char>>),
}

/// The project to migrate: a configuration with `input` or `output` at the
/// top is itself the project `default`; else the project named by
/// `project`; else the only project there is.
pub open spec fn spec_select(config: ValueV, project: Option<Seq<char>>) -> SelectV {
    match config {
        ValueV::Mapping(m) => if value::map_get(m, "input"@) is Some || value::map_get(
            m,
            "output"@,
        ) is Some {
            SelectV::Chosen("default"@, config)
        } else {
            match project {
                Some(n) => match value::map_get(m, n) {
                    Some(v) => SelectV::Chosen(n, v),
                    None => SelectV::ProjectNotFound(n, keys_of(m)),
                },
                None => if m.len() == 1 {
                    SelectV::Chosen(key_text(m[0].0), m[0].1)
                } else {
                    SelectV::MultipleProjects(keys_of(m))
                },
            }
        },
        _ => SelectV::NotAnObject,
    }
}

/// The view of the outcome of `select_project`.
pub open spec fn select_view(r: Result<(String, Value), SelectError>) -> SelectV {
    match r {
        Ok((n, v)) => SelectV::Chosen(n@, v@),
        Err(SelectError::NotAnObject) => SelectV::NotAnObject,
        Err(SelectError::ProjectNotFound { name, available }) => SelectV::ProjectNotFound(
            name@,
            strings_view(available@),
        ),
        Err(SelectError::MultipleProjects { available }) => SelectV::MultipleProjects(
            strings_view(available@),
        ),
    }
}

/// The keys of an object.
fn keys_exec(m: &Vec<(Value, Value)>) -> (r: Vec<String>)
    ensures
        strings_view(r@) == keys_of(value::entries_view(m@)),
{
    let ghost e = value::entries_view(m@);
    let mut out: Vec<String> = Vec::new();
    let mut i: usize = 0;
    while i < m.len()
        invariant
            0 <= i <= m@.len(),
            e == value::entries_view(m@),
            strings_view(out@) == keys_of(e.take(i as int)),
        decreases m@.len() - i,
    {
        let k = match &m[i].0 {
            Value::String(x) => x.clone(),
            _ => text::owned(""),
        };
        proof {
            reveal_with_fuel(value::value_view, 2);
            reveal_strlit("");
        }
        let ghost before = strings_view(out@);
        assert(e[i as int].0 == m@[i as int].0@);
        assert(key_text(e[i as int].0) == k@);
        push_string(&mut out, k);
        assert(keys_of(e.take(i + 1)) =~= keys_of(e.take(i as int)).push(key_text(e[i as int].0)));
        assert(strings_view(out@) =~= keys_of(e.take(i + 1)));
        i = i + 1;
    }
    assert(e.take(m@.len() as int) =~= e);
    out
}

/// Determine which project to migrate (see `spec_select`).
pub fn select_project(config: &Value, project: Option<&String>) -> (r: Result<(String, Value), SelectError>)
    ensures
        select_view(r) == spec_select(
            config@,
            match project {
                Some(p) => Some(p@),
                None => None,
            },
        ),
{
    match config {
        Value::Mapping(m) => {
            proof {
                value::lemma_mapping_value_view(*m);
            }
            if value::map_lookup(m, "input").is_some() || value::map_lookup(m, "output").is_some() {
                return Ok((text::owned("default"), config.deep_copy()));
            }
            match project {
                Some(n) => match value::map_lookup(m, n.as_str()) {
                    Some(v) => Ok((n.clone(), v.deep_copy())),
                    None => Err(SelectError::ProjectNotFound { name: n.clone(), available: keys_exec(m) }),
                },
                None => if m.len() == 1 {
                    let k = match &m[0].0 {
                        Value::String(x) => x.clone(),
                        _ => text::owned(""),
                    };
                    proof {
                        reveal_with_fuel(value::value_view, 2);
                        reveal_strlit("");
                    }
                    Ok((k, m[0].1.deep_copy()))
                } else {
                    Err(SelectError::MultipleProjects { available: keys_exec(m) })
                },
            }
        },
        _ => {
            proof {
                reveal_with_fuel(value::value_view, 2);
            }
            Err(SelectError::NotAnObject)
        },
    }
}

/// Each name in double quotes.
pub open spec fn quoted_names(ks: Seq<Seq<char>>) -> Seq<Seq<char>> {
    Seq::new(ks.len(), |i: int| "\""@ + ks[i] + "\""@)
}

/// The message of a selection error.
pub open spec fn select_message(e: SelectV) -> Seq<char> {
    match e {
        SelectV::ProjectNotFound(n, ks) => "project '"@ + n + "' not found. Available: "@ + text::join(
            quoted_names(ks),
            ", "@,
        ),
        SelectV::MultipleProjects(ks) => "multi-project config detected. Use --project to select one.\nAvailable: "@
            + text::join(quoted_names(ks), ", "@),
        _ => "unexpected config format: expected an object"@,
    }
}

/// Each name in double quotes.
fn quote_names(ks: &Vec<String>) -> (r: Vec<String>)
    ensures
        strings_view(r@) == quoted_names(strings_view(ks@)),
{
    let mut out: Vec<String> = Vec::new();
    let mut i: usize = 0;
    while i < ks.len()
        invariant
            0 <= i <= ks@.len(),
            strings_view(out@) == quoted_names(strings_view(ks@).take(i as int)),
        decreases ks@.len() - i,
    {
        let ghost before = strings_view(out@);
        let q = text::cat3("\"", ks[i].as_str(), "\"");
        assert(strings_view(ks@)[i as int] == ks@[i as int]@);
        push_string(&mut out, q);
        assert(quoted_names(strings_view(ks@).take(i + 1)) =~= quoted_names(
            strings_view(ks@).take(i as int),
        ).push("\""@ + strings_view(ks@)[i as int] + "\""@));
        assert(strings_view(out@) =~= quoted_names(strings_view(ks@).take(i + 1)));
        i = i + 1;
    }
    assert(strings_view(ks@).take(ks@.len() as int) =~= strings_view(ks@));
    out
}

impl SelectError {
    /// The message reported for the error.
    pub fn message(&self) -> (r: String)
        ensures
            r@ == select_message(select_view(Err::<(String, Value), SelectError>(*self))),
    {
        match self {
            SelectError::NotAnObject => text::owned("unexpected config format: expected an object"),
            SelectError::ProjectNotFound { name, available } => {
                let q = quote_names(available);
                let j = text::join_strings(&q, ", ");
                assert(q@.map_values(|x: String| x@) =~= strings_view(q@));
                text::cat3("project '", name.as_str(), text::concat("' not found. Available: ", j.as_str()).as_str())
            },
            SelectError::MultipleProjects { available } => {
                let q = quote_names(available);
                let j = text::join_strings(&q, ", ");
                assert(q@.map_values(|x: String| x@) =~= strings_view(q@));
                text::concat(
                    "multi-project config detected. Use --project to select one.\nAvailable: ",
                    j.as_str(),
                )
            },
        }
    }
}

// ---- Writing the configuration ----------------------------------------------------------

/// The format of the written oa-forge configuration.
#[derive(Debug, Clone, Copy, PartialEq, Eq, Structural)]
pub enum MigrateFormat {
    Ts,
    Json,
    Toml,
}

/// The lines, each followed by a newline.
pub open spec fn each_line(ls: Seq<Seq<char>>) -> Seq<char>
    decreases ls.len(),
{
    if ls.len() == 0 {
        seq![]
    } else {
        each_line(ls.drop_last()) + ls.last() + "\n"@
    }
}

/// A config line without its indentation and trailing commas.
pub open spec fn bare(l: Seq<char>) -> Seq<char> {
    text::trim_end_char(text::trim(l), ',')
}

/// A config line as a JSON member: single quotes made double.
pub open spec fn json_member(l: Seq<char>) -> Seq<char> {
    text::replace_char(bare(l), '\'', '"')
}

/// The JSON members of the lines, comma-separated, each on its own line;
/// `n` is the number of lines in all.
pub open spec fn json_members(ls: Seq<Seq<char>>, n: int) -> Seq<char>
    decreases ls.len(),
{
    if ls.len() == 0 {
        seq![]
    } else {
        json_members(ls.drop_last(), n) + "  "@ + json_member(ls.last()) + if ls.len() < n {
            ","@
        } else {
            seq![]
        } + "\n"@
    }
}

/// A config line as a TOML line: single quotes made double, and the first
/// `: ` made ` = `.
pub open spec fn toml_line(l: Seq<char>) -> Seq<char> {
    text::replace_first(text::replace_char(bare(l), '\'', '"'), ": "@, " = "@)
}

/// The TOML lines, each followed by a newline.
pub open spec fn toml_lines(ls: Seq<Seq<char>>) -> Seq<char>
    decreases ls.len(),
{
    if ls.len() == 0 {
        seq![]
    } else {
        toml_lines(ls.drop_last()) + toml_line(ls.last()) + "\n"@
    }
}

/// The oa-forge configuration written from the config lines.
pub open spec fn spec_render(ls: Seq<Seq<char>>, format: MigrateFormat) -> Seq<char> {
    match format {
        MigrateFormat::Ts => "import { defineConfig } from 'oa-forge/config';\n\n"@
            + "export default defineConfig({\n"@ + each_line(ls) + "});\n"@,
        MigrateFormat::Json => "{\n"@ + json_members(ls, ls.len() as int) + "}\n"@,
        MigrateFormat::Toml => toml_lines(ls),
    }
}

/// The config line with quotes made double.
fn doubled_bare(l: &str) -> (r: Vec<char>)
    ensures
        r@ == text::replace_char(bare(l@), '\'', '"'),
{
    let c = text::chars_of(l);
    let t = text::trimmed(c.as_slice());
    let b = text::trim_end_chars(t.as_slice(), ',');
    text::replace_chars(b.as_slice(), '\'', '"')
}

/// Build the oa-forge configuration from the migrated config lines, in
/// the chosen format.
pub fn render_config(lines: &Vec<String>, format: MigrateFormat) -> (r: String)
    ensures
        r@ == spec_render(strings_view(lines@), format),
{
    let ghost lv = strings_view(lines@);
    let mut out: Vec<char> = Vec::new();
    match format {
        MigrateFormat::Ts => {
            text::push_str(&mut out, "import { defineConfig } from 'oa-forge/config';\n\n");
            text::push_str(&mut out, "export default defineConfig({\n");
            let ghost base = out@;
            let mut i: usize = 0;
            assert(lv.take(0) =~= Seq::<Seq<char>>::empty());
            assert(out@ =~= base + each_line(lv.take(0)));
            while i < lines.len()
                invariant
                    0 <= i <= lines@.len(),
                    lv == strings_view(lines@),
                    out@ == base + each_line(lv.take(i as int)),
                decreases lines@.len() - i,
            {
                text::push_str(&mut out, lines[i].as_str());
                text::push_str(&mut out, "\n");
                proof {
                    let t = lv.take(i + 1);
                    assert(t.drop_last() =~= lv.take(i as int));
                    assert(out@ =~= base + each_line(t));
                }
                i = i + 1;
            }
            assert(lv.take(lines@.len() as int) =~= lv);
            text::push_str(&mut out, "});\n");
        },
        MigrateFormat::Json => {
            text::push_str(&mut out, "{\n");
            let ghost base = out@;
            let mut i: usize = 0;
            assert(lv.take(0) =~= Seq::<Seq<char>>::empty());
            assert(out@ =~= base + json_members(lv.take(0), lv.len() as int));
            while i < lines.len()
                invariant
                    0 <= i <= lines@.len(),
                    lv == strings_view(lines@),
                    out@ == base + json_members(lv.take(i as int), lv.len() as int),
                decreases lines@.len() - i,
            {
                text::push_str(&mut out, "  ");
                let m = doubled_bare(lines[i].as_str());
                text::push_all(&mut out, m.as_slice());
                push_comma(&mut out, i + 1 < lines.len());
                text::push_str(&mut out, "\n");
                proof {
                    let t = lv.take(i + 1);
                    assert(t.drop_last() =~= lv.take(i as int));
                    assert(out@ =~= base + json_members(t, lv.len() as int));
                }
                i = i + 1;
            }
            assert(lv.take(lines@.len() as int) =~= lv);
            text::push_str(&mut out, "}\n");
        },
        MigrateFormat::Toml => {
            let mut i: usize = 0;
            let sep = text::chars_of(": ");
            let eq = text::chars_of(" = ");
            proof {
                reveal_strlit(": ");
            }
            assert(lv.take(0) =~= Seq::<Seq<char>>::empty());
            while i < lines.len()
                invariant
                    0 <= i <= lines@.len(),
                    lv == strings_view(lines@),
                    sep@ == ": "@,
                    eq@ == " = "@,
                    sep@.len() > 0,
                    out@ == toml_lines(lv.take(i as int)),
                decreases lines@.len() - i,
            {
                let m = doubled_bare(lines[i].as_str());
                let tl = text::replace_first_exec(m.as_slice(), sep.as_slice(), eq.as_slice());
                text::push_all(&mut out, tl.as_slice());
                text::push_str(&mut out, "\n");
                proof {
                    let t = lv.take(i + 1);
                    assert(t.drop_last() =~= lv.take(i as int));
                    assert(out@ =~= toml_lines(t));
                }
                i = i + 1;
            }
            assert(lv.take(lines@.len() as int) =~= lv);
        },
    }
    text::string_of(out.as_slice())
}

/// Appends a comma when `b` holds.
fn push_comma(out: &mut Vec<char>, b: bool)
    ensures
        final(out)@ == old(out)@ + if b {
            ","@
        } else {
            seq![]
        },
{
    if b {
        text::push_str(out, ",");
    } else {
        assert(out@ =~= out@ + Seq::<char>::empty());
    }
}

// ---- The migration report ----------------------------------------------------------------

/// Each item behind a marker.
pub open spec fn marked(marker: Seq<char>, items: Seq<Seq<char>>) -> Seq<Seq<char>> {
    Seq::new(items.len(), |i: int| marker + items[i])
}

/// A blank line and the marked items, when there are items.
pub open spec fn section(marker: Seq<char>, items: Seq<Seq<char>>) -> Seq<Seq<char>> {
    if items.len() > 0 {
        seq![""@] + marked(marker, items)
    } else {
        seq![]
    }
}

/// The lines of the migration report of project `name` migrated from
/// `from`: a title, the converted settings (green check), the warnings
/// (yellow sign) and the unsupported settings (red cross), and the counts.
pub open spec fn spec_report(m: MigrateV, name: Seq<char>, from: Seq<char>) -> Seq<Seq<char>> {
    seq![""@, "── Migration report: "@ + name + " (from "@ + from + ") ──"@, ""@] + marked(
        "  \x1b[32m✓\x1b[0m "@,
        m.converted,
    ) + section("  \x1b[33m⚠\x1b[0m "@, m.warnings) + section("  \x1b[31m✗\x1b[0m "@, m.unsupported)
        + seq![
        ""@,
        "  "@ + text::decimal(m.converted.len()) + " converted, "@ + text::decimal(m.warnings.len())
            + " warnings, "@ + text::decimal(m.unsupported.len()) + " unsupported"@,
    ]
}

/// Appends each item behind a marker.
fn push_marked(out: &mut Vec<String>, marker: &str, items: &Vec<String>)
    ensures
        strings_view(final(out)@) == strings_view(old(out)@) + marked(marker@, strings_view(items@)),
{
    let ghost base = strings_view(out@);
    let ghost iv = strings_view(items@);
    let mut i: usize = 0;
    assert(strings_view(out@) =~= base + marked(marker@, iv.take(0)));
    while i < items.len()
        invariant
            0 <= i <= items@.len(),
            iv == strings_view(items@),
            strings_view(out@) == base + marked(marker@, iv.take(i as int)),
        decreases items@.len() - i,
    {
        push_string(out, text::concat(marker, items[i].as_str()));
        assert(strings_view(out@) =~= base + marked(marker@, iv.take(i + 1)));
        i = i + 1;
    }
    assert(iv.take(items@.len() as int) =~= iv);
}

/// Appends a blank line and the marked items, when there are items.
fn push_section(out: &mut Vec<String>, marker: &str, items: &Vec<String>)
    ensures
        strings_view(final(out)@) == strings_view(old(out)@) + section(marker@, strings_view(items@)),
{
    let ghost base = strings_view(out@);
    if items.len() > 0 {
        push_string(out, text::owned(""));
        proof {
            reveal_strlit("");
        }
        push_marked(out, marker, items);
        assert(strings_view(out@) =~= base + section(marker@, strings_view(items@)));
    } else {
        assert(strings_view(out@) =~= base + section(marker@, strings_view(items@)));
    }
}

/// Print migration report: the lines to show (see `spec_report`).
pub fn migration_report(m: &MigrateResult, name: &str, from: &str) -> (r: Vec<String>)
    ensures
        strings_view(r@) == spec_report(m@, name@, from@),
{
    let mut out: Vec<String> = Vec::new();
    proof {
        reveal_strlit("");
    }
    push_string(&mut out, text::owned(""));
    push_string(&mut out, text::cat5("── Migration report: ", name, " (from ", from, ") ──"));
    push_string(&mut out, text::owned(""));
    push_marked(&mut out, "  \x1b[32m✓\x1b[0m ", &m.converted);
    push_section(&mut out, "  \x1b[33m⚠\x1b[0m ", &m.warnings);
    push_section(&mut out, "  \x1b[31m✗\x1b[0m ", &m.unsupported);
    push_string(&mut out, text::owned(""));
    let c = text::decimal_string(m.converted.len() as u64);
    let w = text::decimal_string(m.warnings.len() as u64);
    let u = text::decimal_string(m.unsupported.len() as u64);
    let a = text::cat5("  ", c.as_str(), " converted, ", w.as_str(), " warnings, ");
    push_string(&mut out, text::cat3(a.as_str(), u.as_str(), " unsupported"));
    out
}

/// The query framework of a query client is the client's name without its
/// `-query` suffix, and each of the four query clients has one:
/// `react-query`, `vue-query`, `solid-query` and `svelte-query` give
/// `react`, `vue`, `solid` and `svelte`.
pub proof fn law_framework_is_client_without_suffix(c: Seq<char>)
    ensures
        framework_of(c) matches Some(fw) ==> c == fw + "-query"@,
        (c == "react"@ + "-query"@ || c == "vue"@ + "-query"@ || c == "solid"@ + "-query"@ || c
            == "svelte"@ + "-query"@) ==> framework_of(c) is Some,
{
    reveal_strlit("react-query");
    reveal_strlit("vue-query");
    reveal_strlit("solid-query");
    reveal_strlit("svelte-query");
    reveal_strlit("react");
    reveal_strlit("vue");
    reveal_strlit("solid");
    reveal_strlit("svelte");
    reveal_strlit("-query");
    assert("react"@ + "-query"@ =~= "react-query"@);
    assert("vue"@ + "-query"@ =~= "vue-query"@);
    assert("solid"@ + "-query"@ =~= "solid-query"@);
    assert("svelte"@ + "-query"@ =~= "svelte-query"@);
}

/// Orval's output modes map to split modes: `single` stays single; `tags`,
/// `tags-split` and `split` all become one file set per tag; any other mode
/// is unknown.
pub proof fn law_split_modes(mode: Seq<char>)
    ensures
        split_of(mode) == Some("single"@) <==> mode == "single"@,
        split_of(mode) == Some("tag"@) <==> (mode == "tags"@ || mode == "tags-split"@ || mode == "split"@),
        split_of(mode) is None <==> (mode != "single"@ && mode != "tags"@ && mode != "tags-split"@ && mode
            != "split"@),
{
    reveal_strlit("single");
    reveal_strlit("tag");
    reveal_strlit("tags");
    reveal_strlit("tags-split");
    reveal_strlit("split");
    assert("single"@[0] == 's' && "tag"@[0] == 't' && "tags"@[0] == 't' && "tags-split"@[0] == 't'
        && "split"@[0] == 's');
    assert("single"@[1] == 'i' && "split"@[1] == 'p');
    assert("tag"@.len() == 3 && "tags"@.len() == 4 && "tags-split"@.len() == 10);
}

/// `output.client` becomes config lines: a query client turns hooks on with
/// its framework; `zod` turns zod on; `hono` is the client; `fetch` and
/// `axios-functions` add nothing (they are left to `httpClient`).
pub proof fn law_client_lines(a: MigrateV, ov: ValueV, c: Seq<char>)
    requires
        str_at(ov, "client"@) == Some(c),
    ensures
        framework_of(c) matches Some(fw) ==> mig_client(a, ov).lines == a.lines + seq![
            "  hooks: true,"@,
            "  query_framework: '"@ + fw + "',"@,
        ],
        c == "zod"@ ==> mig_client(a, ov).lines == a.lines + seq!["  zod: true,"@],
        c == "hono"@ ==> mig_client(a, ov).lines == a.lines + seq!["  client: 'hono',"@],
        (c == "fetch"@ || c == "axios-functions"@) ==> mig_client(a, ov) == a,
{
    reveal_strlit("react-query");
    reveal_strlit("vue-query");
    reveal_strlit("solid-query");
    reveal_strlit("svelte-query");
    reveal_strlit("zod");
    reveal_strlit("hono");
    reveal_strlit("fetch");
    reveal_strlit("axios-functions");
    reveal_strlit("axios");
    reveal_strlit("angular");
    assert("zod"@.len() == 3 && "hono"@.len() == 4 && "fetch"@.len() == 5);
    assert("fetch"@[0] == 'f' && "axios"@[0] == 'a' && "zod"@[0] == 'z' && "hono"@[0] == 'h');
    assert("react-query"@.len() == 11 && "vue-query"@.len() == 9 && "solid-query"@.len() == 11
        && "svelte-query"@.len() == 12);
    assert("react-query"@[0] == 'r' && "vue-query"@[0] == 'v' && "solid-query"@[0] == 's'
        && "svelte-query"@[0] == 's');
    assert("axios-functions"@[0] == 'a' && "axios-functions"@.len() == 15 && "axios"@.len() == 5
        && "angular"@.len() == 7);
    if framework_of(c) is Some {
        assert(a.lines.push("  hooks: true,"@).push("  query_framework: '"@ + framework_of(c)->Some_0 + "',"@)
            =~= a.lines + seq!["  hooks: true,"@, "  query_framework: '"@ + framework_of(c)->Some_0 + "',"@]);
    }
    assert(a.lines.push("  zod: true,"@) =~= a.lines + seq!["  zod: true,"@]);
    assert(a.lines.push("  client: 'hono',"@) =~= a.lines + seq!["  client: 'hono',"@]);
}

/// `output.httpClient` `fetch`, `axios` or `angular` becomes the client
/// line; any other is noted as unsupported and adds no line.
pub proof fn law_http_client_lines(a: MigrateV, ov: ValueV, h: Seq<char>)
    requires
        str_at(ov, "httpClient"@) == Some(h),
    ensures
        (h == "fetch"@ || h == "axios"@ || h == "angular"@) ==> mig_http(a, ov).lines == a.lines + seq![
            "  client: '"@ + h + "',"@,
        ],
        !(h == "fetch"@ || h == "axios"@ || h == "angular"@) ==> mig_http(a, ov).lines == a.lines
            && mig_http(a, ov).unsupported.len() == a.unsupported.len() + 1,
{
    assert(a.lines.push("  client: '"@ + h + "',"@) =~= a.lines + seq!["  client: '"@ + h + "',"@]);
}

/// `b` holds the config lines of `a` first, in order.
pub open spec fn keeps_lines(a: MigrateV, b: MigrateV) -> bool {
    &&& a.lines.len() <= b.lines.len()
    &&& forall|i: int| 0 <= i < a.lines.len() ==> #[trigger] b.lines[i] == a.lines[i]
}

proof fn lemma_later_steps_keep_lines(a: MigrateV, ov: ValueV, project: ValueV)
    ensures
        keeps_lines(a, mig_hooks(mig_override(mig_output_flags(a, ov), ov), project)),
{
    let o = idx(ov, "override"@);
    let b1 = mig_output_flags(a, ov);
    assert(keeps_lines(a, b1));
    let m1 = mig_mutator(b1, o);
    assert(keeps_lines(b1, m1));
    let m2 = mig_header(m1, o);
    assert(keeps_lines(m1, m2));
    let m3 = mig_override_rest(m2, o);
    assert(keeps_lines(m2, m3));
    let b2 = mig_override(b1, ov);
    assert(keeps_lines(b1, b2));
    let b3 = mig_hooks(b2, project);
    assert(keeps_lines(b2, b3));
}

/// Migrating a project whose `output.client` is a query client
/// (`<framework>-query` for react, vue, solid or svelte) writes the config
/// lines `hooks: true` and `query_framework: '<framework>'`.
pub proof fn law_query_client_migrates_framework(project: ValueV, fw: Seq<char>)
    requires
        fw == "react"@ || fw == "vue"@ || fw == "solid"@ || fw == "svelte"@,
        str_at(idx(project, "output"@), "client"@) == Some(fw + "-query"@),
    ensures
        spec_migrate(project).lines.contains("  hooks: true,"@),
        spec_migrate(project).lines.contains("  query_framework: '"@ + fw + "',"@),
{
    let ov = idx(project, "output"@);
    let c = fw + "-query"@;
    law_framework_is_client_without_suffix(c);
    let g = framework_of(c)->Some_0;
    assert(g + "-query"@ == fw + "-query"@);
    assert(g =~= fw) by {
        assert forall|i: int| 0 <= i < g.len() implies g[i] == fw[i] by {
            assert((g + "-query"@)[i] == (fw + "-query"@)[i]);
        }
    }
    let a1 = mig_input(empty_migration(), project);
    let a2 = mig_target(a1, "output"@, ov);
    let a3 = mig_mode(a2, ov);
    let a4 = mig_http(a3, ov);
    let a5 = mig_client(a4, ov);
    law_client_lines(a4, ov, c);
    lemma_later_steps_keep_lines(a5, ov, project);
    let r = spec_migrate(project);
    let n = a4.lines.len() as int;
    assert(a5.lines[n] == "  hooks: true,"@);
    assert(a5.lines[n + 1] == "  query_framework: '"@ + fw + "',"@);
    assert(r.lines[n] == a5.lines[n]);
    assert(r.lines[n + 1] == a5.lines[n + 1]);
}

} // verus!
