//! The decisions of a generation run that do not depend on the emitters:
//! spec warnings, per-endpoint overrides, file headers, import paths of a
//! custom client, and whether the spec changed since the last run.
use vstd::prelude::*;

use std::hash::{Hash, Hasher};

use crate::ir::{ApiSpec, Endpoint, EndpointV, HttpMethod};
use crate::ir::strings_view;
use crate::openapi::{OpenApiSpec, Operation, PathItem};
use crate::openapi;
use crate::text;

verus! {

// ---- Headers ---------------------------------------------------------------------

/// The line that the emitters put at the top of each file.
pub open spec fn emitter_header_line() -> Seq<char> {
    "// Generated by oa-forge. Do not edit."@
}

/// The header used when the configuration sets none.
pub fn default_header() -> (r: String)
    ensures
        r@ == "/* eslint-disable */\n"@ + emitter_header_line(),
{
    text::concat("/* eslint-disable */\n", "// Generated by oa-forge. Do not edit.")
}

/// Replace the emitter's default header with the user-configured one: the
/// first occurrence of the emitter's header line is replaced by `header`.
pub fn apply_header(content: &str, header: &str) -> (r: String)
    ensures
        r@ == text::replace_first(content@, emitter_header_line(), header@),
{
    let c = text::chars_of(content);
    let pat = text::chars_of("// Generated by oa-forge. Do not edit.");
    let h = text::chars_of(header);
    proof {
        reveal_strlit("// Generated by oa-forge. Do not edit.");
    }
    let out = text::replace_first_exec(c.as_slice(), pat.as_slice(), h.as_slice());
    text::string_of(out.as_slice())
}

// ---- Incremental generation ------------------------------------------------------------

/// What `DefaultHasher::new()` followed by `str::hash` and `Hasher::finish`
/// gives for a text. `DefaultHasher::new` starts from fixed keys (every
/// hasher it makes is the same), so the hash is a function of the text.
pub uninterp spec fn str_hash(s: Seq<char>) -> u64;

/// The hash of a spec's text, by the standard library's `DefaultHasher`:
/// the result is what `str_hash` names for the text.
#[verifier::external_body]
fn content_hash(content: &str) -> (r: u64)
    ensures
        r == str_hash(content@),
{
    let mut hasher = std::collections::hash_map::DefaultHasher::new();
    content.hash(&mut hasher);
    hasher.finish()
}

/// The text recorded for a hash: its decimal notation.
pub fn hash_text(hash: u64) -> (r: String)
    ensures
        r@ == text::decimal(hash as nat),
{
    text::decimal_string(hash)
}

/// The text recorded after generating from `content`: the decimal notation
/// of its hash.
pub fn hash_record(content: &str) -> (r: String)
    ensures
        r@ == text::decimal(str_hash(content@) as nat),
{
    let h = content_hash(content);
    hash_text(h)
}

/// Whether a recorded hash text (trimmed) is the record of `hash`.
pub fn hash_matches(previous: &str, hash: u64) -> (r: bool)
    ensures
        r == (text::trim(previous@) == text::decimal(hash as nat)),
{
    let p = text::chars_of(previous);
    let t = text::trimmed(p.as_slice());
    let d = text::chars_of(hash_text(hash).as_str());
    text::slices_equal(t.as_slice(), d.as_slice())
}

/// Whether the spec is unchanged since the run that recorded `previous`:
/// the recorded text, trimmed, is the decimal notation of the hash of
/// `content`.
pub fn spec_unchanged(previous: &str, content: &str) -> (r: bool)
    ensures
        r == (text::trim(previous@) == text::decimal(str_hash(content@) as nat)),
{
    let h = content_hash(content);
    hash_matches(previous, h)
}

// ---- Import path of a custom client -------------------------------------------------

/// What `pathdiff::diff_paths(target, base)` gives, as text: the relative
/// path from the directory `base` to `target`, if there is one. It is worked
/// out from the two paths alone, with no file-system access.
pub uninterp spec fn rel_path(target: Seq<char>, base: Seq<char>) -> Option<Seq<char>>;

/// The view of an optional string.
pub open spec fn opt_view(o: Option<String>) -> Option<Seq<char>> {
    match o {
        Some(s) => Some(s@),
        None => None,
    }
}

/// `pathdiff::diff_paths(target, base)`, its result as text: claimed to be
/// `rel_path` of the two arguments. How a path splits into components, and
/// which paths are absolute, follow the platform's path rules, so nothing
/// more is stated (not even the cases where exactly one of the two paths is
/// absolute).
#[verifier::external_body]
fn diff_paths(target: &str, base: &str) -> (r: Option<String>)
    ensures
        opt_view(r) == rel_path(target@, base@),
{
    pathdiff::diff_paths(std::path::Path::new(target), std::path::Path::new(base)).map(
        |p| p.to_string_lossy().to_string(),
    )
}

/// `s` without the suffix `suf`, when it has it.
pub open spec fn drop_suffix(s: Seq<char>, suf: Seq<char>) -> Seq<char> {
    s.subrange(0, s.len() - suf.len())
}

/// The import path made from a relative path `rel` (the target itself when
/// there is none): backslashes become slashes, a `.ts` or else `.mts`
/// extension is dropped, and `./` is put in front unless it starts with
/// `./` or `../`.
pub open spec fn import_path(rel: Option<Seq<char>>, target: Seq<char>) -> Seq<char> {
    let s0 = match rel {
        Some(x) => x,
        None => target,
    };
    let s1 = text::replace_char(s0, '\\', '/');
    let s2 = if text::has_suffix(s1, ".ts"@) {
        drop_suffix(s1, ".ts"@)
    } else if text::has_suffix(s1, ".mts"@) {
        drop_suffix(s1, ".mts"@)
    } else {
        s1
    };
    if text::has_prefix(s2, "./"@) || text::has_prefix(s2, "../"@) {
        s2
    } else {
        "./"@ + s2
    }
}

/// The import path of `target` from the directory `from_dir`: made by
/// `import_path` from the relative path between them.
pub open spec fn relative_import(from_dir: Seq<char>, target: Seq<char>) -> Seq<char> {
    import_path(rel_path(target, from_dir), target)
}

/// The import path of `target_file` made from the relative path `rel`
/// computed for it (see `import_path`).
pub fn normalize_import(rel: Option<&str>, target_file: &str) -> (r: String)
    ensures
        r@ == import_path(
            match rel {
                Some(x) => Some(x@),
                None => None,
            },
            target_file@,
        ),
{
    let s0 = match rel {
        Some(x) => text::chars_of(x),
        None => text::chars_of(target_file),
    };
    let s1 = text::replace_chars(s0.as_slice(), '\\', '/');
    let ts = text::chars_of(".ts");
    let mts = text::chars_of(".mts");
    proof {
        reveal_strlit(".ts");
        reveal_strlit(".mts");
    }
    let s2 = if text::ends_with(s1.as_slice(), ts.as_slice()) {
        prefix_of(&s1, s1.len() - 3)
    } else if text::ends_with(s1.as_slice(), mts.as_slice()) {
        prefix_of(&s1, s1.len() - 4)
    } else {
        s1
    };
    let dot = text::chars_of("./");
    let up = text::chars_of("../");
    if text::starts_with(s2.as_slice(), dot.as_slice()) || text::starts_with(
        s2.as_slice(),
        up.as_slice(),
    ) {
        text::string_of(s2.as_slice())
    } else {
        let mut out = dot;
        text::push_all(&mut out, s2.as_slice());
        text::string_of(out.as_slice())
    }
}

/// The first `n` characters of `s`.
fn prefix_of(s: &Vec<char>, n: usize) -> (r: Vec<char>)
    requires
        n <= s@.len(),
    ensures
        r@ == s@.subrange(0, n as int),
{
    let mut r: Vec<char> = Vec::new();
    let mut i: usize = 0;
    while i < n
        invariant
            0 <= i <= n <= s@.len(),
            r@ == s@.subrange(0, i as int),
        decreases n - i,
    {
        r.push(s[i]);
        i = i + 1;
    }
    r
}

/// Compute a relative import path from `from_dir` to `target_file`.
/// Strips `.ts`/`.mts` extensions and ensures `./` or `../` prefix.
pub fn compute_relative_import(from_dir: &str, target_file: &str) -> (r: String)
    ensures
        r@ == relative_import(from_dir@, target_file@),
        text::has_prefix(r@, "./"@) || text::has_prefix(r@, "../"@),
{
    let rel = diff_paths(target_file, from_dir);
    let r = match &rel {
        Some(x) => normalize_import(Some(x.as_str()), target_file),
        None => normalize_import(None, target_file),
    };
    proof {
        let rv = match rel {
            Some(x) => Some(x@),
            None => None,
        };
        assert(r@ == import_path(rv, target_file@));
        reveal_strlit("./");
        let s0 = match rv {
            Some(x) => x,
            None => target_file@,
        };
        let s1 = text::replace_char(s0, '\\', '/');
        let s2 = if text::has_suffix(s1, ".ts"@) {
            drop_suffix(s1, ".ts"@)
        } else if text::has_suffix(s1, ".mts"@) {
            drop_suffix(s1, ".mts"@)
        } else {
            s1
        };
        if !(text::has_prefix(s2, "./"@) || text::has_prefix(s2, "../"@)) {
            assert(("./"@ + s2).subrange(0, 2) =~= "./"@);
        }
    }
    r
}

// ---- Spec warnings -------------------------------------------------------------------

/// The warnings for the operations among `ops` (on `path`) that have no
/// operation id.
pub open spec fn ops_warnings(path: Seq<char>, ops: Seq<(Seq<char>, Operation)>) -> Seq<Seq<char>>
    decreases ops.len(),
{
    if ops.len() == 0 {
        seq![]
    } else {
        let w = ops_warnings(path, ops.drop_last());
        if ops.last().1.operation_id is None {
            w.push("warn: missing operationId for "@ + ops.last().0 + " "@ + path)
        } else {
            w
        }
    }
}

/// The warnings for the operations of `paths` that have no operation id,
/// path by path, operations in method order.
pub open spec fn spec_missing_ids(paths: Seq<(String, PathItem)>) -> Seq<Seq<char>>
    decreases paths.len(),
{
    if paths.len() == 0 {
        seq![]
    } else {
        spec_missing_ids(paths.drop_last()) + ops_warnings(
            paths.last().0@,
            openapi::spec_operations(paths.last().1),
        )
    }
}

/// Validate spec: the warnings for operations without an operation id,
/// `warn: missing operationId for {method} {path}`.
pub fn validate_spec(spec: &OpenApiSpec) -> (r: Vec<String>)
    ensures
        strings_view(r@) == spec_missing_ids(spec.paths@),
{
    let ghost ps = spec.paths@;
    let mut out: Vec<String> = Vec::new();
    let mut i: usize = 0;
    assert(ps.take(0) =~= Seq::<(String, PathItem)>::empty());
    assert(strings_view(out@) =~= Seq::<Seq<char>>::empty());
    while i < spec.paths.len()
        invariant
            0 <= i <= ps.len(),
            ps == spec.paths@,
            strings_view(out@) == spec_missing_ids(ps.take(i as int)),
        decreases ps.len() - i,
    {
        let path = &spec.paths[i].0;
        let ops = spec.paths[i].1.operations();
        let ghost ov = openapi::ops_view(ops@);
        let ghost base = strings_view(out@);
        let mut j: usize = 0;
        assert(ov.take(0) =~= Seq::<(Seq<char>, Operation)>::empty());
        assert(base + ops_warnings(path@, ov.take(0)) =~= base);
        while j < ops.len()
            invariant
                0 <= j <= ops@.len(),
                ov == openapi::ops_view(ops@),
                ov.len() == ops@.len(),
                strings_view(out@) == base + ops_warnings(path@, ov.take(j as int)),
            decreases ops@.len() - j,
        {
            let ghost before = strings_view(out@);
            proof {
                let t = ov.take(j + 1);
                assert(t.drop_last() =~= ov.take(j as int));
                assert(t.last() == (ops@[j as int].0@, *ops@[j as int].1));
            }
            if ops[j].1.operation_id.is_none() {
                let w = text::cat3("warn: missing operationId for ", ops[j].0, " ");
                let w = text::concat(w.as_str(), path.as_str());
                out.push(w);
                assert(strings_view(out@) =~= before.push(w@));
            }
            j = j + 1;
        }
        assert(ov.take(ops@.len() as int) =~= ov);
        proof {
            let t = ps.take(i + 1);
            assert(t.drop_last() =~= ps.take(i as int));
            assert(t.last() == ps[i as int]);
        }
        i = i + 1;
    }
    assert(ps.take(ps.len() as int) =~= ps);
    out
}

// ---- Per-endpoint overrides -------------------------------------------------------------

/// Per-endpoint override configuration.
pub struct EndpointOverride {
    /// Custom operationId (replaces the spec's operationId).
    pub operation_id: Option<String>,
    /// Skip code generation for this endpoint.
    pub skip: bool,
}

/// The key that overrides use for an endpoint: `METHOD /path`.
pub open spec fn endpoint_key(method: HttpMethod, path: Seq<char>) -> Seq<char> {
    crate::ir::method_upper(method) + " "@ + path
}

/// The override for an endpoint, if any.
pub open spec fn override_for(ovs: Seq<(String, EndpointOverride)>, e: EndpointV) -> Option<
    EndpointOverride,
> {
    openapi::lookup(ovs, endpoint_key(e.method, e.path))
}

/// The endpoint is skipped by its override.
pub open spec fn is_skipped(ovs: Seq<(String, EndpointOverride)>, e: EndpointV) -> bool {
    match override_for(ovs, e) {
        Some(o) => o.skip,
        None => false,
    }
}

/// The endpoint with the operation id of its override, if it sets one.
pub open spec fn with_override(ovs: Seq<(String, EndpointOverride)>, e: EndpointV) -> EndpointV {
    match override_for(ovs, e) {
        Some(o) => match o.operation_id {
            Some(id) => EndpointV { operation_id: id@, ..e },
            None => e,
        },
        None => e,
    }
}

/// The endpoints that overrides keep, in order, with their overridden ids.
pub open spec fn overridden(eps: Seq<EndpointV>, ovs: Seq<(String, EndpointOverride)>) -> Seq<
    EndpointV,
>
    decreases eps.len(),
{
    if eps.len() == 0 {
        seq![]
    } else {
        let r = overridden(eps.drop_last(), ovs);
        if is_skipped(ovs, eps.last()) {
            r
        } else {
            r.push(with_override(ovs, eps.last()))
        }
    }
}

/// The keys of the endpoints that overrides skip, in order.
pub open spec fn skipped_keys(eps: Seq<EndpointV>, ovs: Seq<(String, EndpointOverride)>) -> Seq<
    Seq<char>,
>
    decreases eps.len(),
{
    if eps.len() == 0 {
        seq![]
    } else {
        let r = skipped_keys(eps.drop_last(), ovs);
        if is_skipped(ovs, eps.last()) {
            r.push(endpoint_key(eps.last().method, eps.last().path))
        } else {
            r
        }
    }
}

/// Apply per-endpoint overrides (custom operationId, skip) to the IR: the
/// endpoints whose override says `skip` are removed, the others take the
/// operation id of their override when it sets one. Returns the keys of the
/// endpoints removed. The types are left as they are.
pub fn apply_overrides(api: &mut ApiSpec, overrides: &Vec<(String, EndpointOverride)>) -> (r: Vec<
    String,
>)
    ensures
        final(api)@.types == old(api)@.types,
        final(api)@.endpoints == overridden(old(api)@.endpoints, overrides@),
        strings_view(r@) == skipped_keys(old(api)@.endpoints, overrides@),
{
    let mut eps: Vec<Endpoint> = Vec::new();
    std::mem::swap(&mut eps, &mut api.endpoints);
    let ghost ev = eps@.map_values(|e: Endpoint| e@);
    let ghost ty = api@.types;
    let mut kept: Vec<Endpoint> = Vec::new();
    let mut skipped: Vec<String> = Vec::new();
    let n: usize = eps.len();
    let mut rest = eps;
    let mut i: usize = 0;
    assert(ev.take(0) =~= Seq::<EndpointV>::empty());
    assert(kept@.map_values(|e: Endpoint| e@) =~= Seq::<EndpointV>::empty());
    assert(strings_view(skipped@) =~= Seq::<Seq<char>>::empty());
    while rest.len() > 0
        invariant
            i + rest@.len() == ev.len(),
            ev.len() == n,
            forall|k: int| 0 <= k < rest@.len() ==> rest@[k]@ == #[trigger] ev[i + k],
            kept@.map_values(|e: Endpoint| e@) == overridden(ev.take(i as int), overrides@),
            strings_view(skipped@) == skipped_keys(ev.take(i as int), overrides@),
            api@.types == ty,
        decreases rest@.len(),
    {
        let ghost kb = kept@.map_values(|e: Endpoint| e@);
        let ghost sb = strings_view(skipped@);
        assert(rest@[0]@ == ev[i + 0]);
        let mut e = rest.remove(0);
        assert(e@ == ev[i as int]);
        proof {
            let t = ev.take(i + 1);
            assert(t.drop_last() =~= ev.take(i as int));
            assert(t.last() == ev[i as int]);
            assert forall|k: int| 0 <= k < rest@.len() implies rest@[k]@ == #[trigger] ev[(i + 1)
                + k] by {
                assert(ev[(i + 1) + k] == ev[i + (k + 1)]);
            }
        }
        let key = text::cat3(e.method.as_upper(), " ", e.path.as_str());
        match openapi::find_entry(overrides, key.as_str()) {
            Some(k) => {
                if overrides[k].1.skip {
                    skipped.push(key);
                    assert(strings_view(skipped@) =~= sb.push(endpoint_key(e@.method, e@.path)));
                } else {
                    let ghost e0 = e@;
                    match &overrides[k].1.operation_id {
                        Some(id) => {
                            e.operation_id = id.clone();
                        },
                        None => {},
                    }
                    assert(e@ == with_override(overrides@, e0));
                    kept.push(e);
                    assert(kept@.map_values(|x: Endpoint| x@) =~= kb.push(with_override(overrides@, e0)));
                }
            },
            None => {
                kept.push(e);
                assert(kept@.map_values(|x: Endpoint| x@) =~= kb.push(e@));
            },
        }
        i = i + 1;
    }
    assert(ev.take(i as int) =~= ev);
    api.endpoints = kept;
    skipped
}

/// Overrides account for every endpoint: each endpoint is either kept or
/// reported as skipped, and no endpoint that is kept is one that an override
/// skips.
pub proof fn law_overrides_keep_or_skip(eps: Seq<EndpointV>, ovs: Seq<(String, EndpointOverride)>)
    ensures
        overridden(eps, ovs).len() + skipped_keys(eps, ovs).len() == eps.len(),
        forall|i: int|
            0 <= i < overridden(eps, ovs).len() ==> !is_skipped(ovs, #[trigger] overridden(eps, ovs)[i]),
    decreases eps.len(),
{
    if eps.len() > 0 {
        law_overrides_keep_or_skip(eps.drop_last(), ovs);
        let e = eps.last();
        let w = with_override(ovs, e);
        assert(endpoint_key(w.method, w.path) == endpoint_key(e.method, e.path));
        assert(override_for(ovs, w) == override_for(ovs, e));
    }
}

/// Applying the overrides a second time changes nothing.
pub proof fn law_overrides_idempotent(eps: Seq<EndpointV>, ovs: Seq<(String, EndpointOverride)>)
    ensures
        overridden(overridden(eps, ovs), ovs) == overridden(eps, ovs),
        skipped_keys(overridden(eps, ovs), ovs).len() == 0,
    decreases eps.len(),
{
    if eps.len() > 0 {
        law_overrides_idempotent(eps.drop_last(), ovs);
        let r = overridden(eps.drop_last(), ovs);
        let e = eps.last();
        let w = with_override(ovs, e);
        assert(override_for(ovs, w) == override_for(ovs, e));
        if !is_skipped(ovs, e) {
            let o = overridden(eps, ovs);
            assert(o == r.push(w));
            assert(o.drop_last() =~= r);
            assert(o.last() == w);
            assert(with_override(ovs, w) == w);
        }
    }
}

proof fn lemma_decimal_digits(n: nat)
    ensures
        text::decimal(n).len() > 0,
        forall|i: int| 0 <= i < text::decimal(n).len() ==> !text::is_ws(#[trigger] text::decimal(n)[i]),
    decreases n,
{
    if n >= 10 {
        lemma_decimal_digits(n / 10);
        let a = text::decimal(n / 10);
        let d = text::decimal(n);
        assert forall|i: int| 0 <= i < d.len() implies !text::is_ws(#[trigger] d[i]) by {
            if i < a.len() {
                assert(d[i] == a[i]);
            } else {
                assert(d[i] == text::digit((n % 10) as int));
            }
        }
    }
}

/// Generation from an unchanged spec is skipped: the text that
/// `hash_record` writes after generating from `content` makes
/// `spec_unchanged` hold for that same `content` (the decimal notation of a
/// hash survives trimming).
pub proof fn law_unchanged_spec_is_skipped(content: Seq<char>)
    ensures
        text::trim(text::decimal(str_hash(content) as nat)) == text::decimal(str_hash(content) as nat),
{
    let d = text::decimal(str_hash(content) as nat);
    lemma_decimal_digits(str_hash(content) as nat);
    assert(!text::is_ws(d[0]));
    assert(text::ws_run(d, 0) == 0);
    assert(d.skip(0) =~= d);
    assert(text::trim_start(d) == d);
    assert(!text::is_ws(d[d.len() - 1]));
    assert(text::ws_back(d, d.len() as int) == d.len());
    assert(d.take(d.len() as int) =~= d);
}

/// An override is found by the key `<METHOD> <path>`, the method in capitals
/// (`GET`, `POST`, `PUT`, `PATCH`, `DELETE`) and one space before the path.
pub proof fn law_endpoint_keys(m: HttpMethod, path: Seq<char>)
    ensures
        endpoint_key(m, path) == match m {
            HttpMethod::Get => "GET"@,
            HttpMethod::Post => "POST"@,
            HttpMethod::Put => "PUT"@,
            HttpMethod::Patch => "PATCH"@,
            HttpMethod::Delete => "DELETE"@,
        } + seq![' '] + path,
{
    reveal_strlit(" ");
    assert(" "@ =~= seq![' ']);
}

/// An import path is relative: it starts with `./` or `../` and holds no
/// backslash; a relative path that is already in that form and names a
/// `.ts` file is imported without its extension.
pub proof fn law_import_paths(rel: Option<Seq<char>>, target: Seq<char>, x: Seq<char>)
    ensures
        text::has_prefix(import_path(rel, target), "./"@) || text::has_prefix(
            import_path(rel, target),
            "../"@,
        ),
        !import_path(rel, target).contains('\\'),
        (!x.contains('\\') && text::has_prefix(x, "./"@) && text::has_suffix(x, ".ts"@)) ==> import_path(
            Some(x),
            target,
        ) == x.subrange(0, x.len() - 3),
{
    reveal_strlit("./");
    reveal_strlit("../");
    reveal_strlit(".ts");
    reveal_strlit(".mts");
    let s0 = match rel {
        Some(v) => v,
        None => target,
    };
    let s1 = text::replace_char(s0, '\\', '/');
    assert(!s1.contains('\\')) by {
        if s1.contains('\\') {
            let k = choose|k: int| 0 <= k < s1.len() && s1[k] == '\\';
        }
    }
    let s2 = if text::has_suffix(s1, ".ts"@) {
        drop_suffix(s1, ".ts"@)
    } else if text::has_suffix(s1, ".mts"@) {
        drop_suffix(s1, ".mts"@)
    } else {
        s1
    };
    assert(!s2.contains('\\')) by {
        if s2.contains('\\') {
            let k = choose|k: int| 0 <= k < s2.len() && s2[k] == '\\';
            assert(s1[k] == s2[k]);
        }
    }
    let r = import_path(rel, target);
    if !(text::has_prefix(s2, "./"@) || text::has_prefix(s2, "../"@)) {
        assert(r == "./"@ + s2);
        assert(r.subrange(0, 2) =~= "./"@);
        assert(!r.contains('\\')) by {
            if r.contains('\\') {
                let k = choose|k: int| 0 <= k < r.len() && r[k] == '\\';
                if k >= 2 {
                    assert(s2[k - 2] == r[k]);
                } else {
                    assert("./"@[k] == r[k]);
                }
            }
        }
    }
    if !x.contains('\\') && text::has_prefix(x, "./"@) && text::has_suffix(x, ".ts"@) {
        let t1 = text::replace_char(x, '\\', '/');
        assert(t1 =~= x) by {
            assert forall|i: int| 0 <= i < x.len() implies t1[i] == x[i] by {
                if x[i] == '\\' {
                    assert(x.contains('\\'));
                }
            }
        }
        let t2 = drop_suffix(x, ".ts"@);
        assert(t2 =~= x.subrange(0, x.len() - 3));
        let n = x.len() as int;
        assert("./"@[0] == '.' && "./"@[1] == '/' && ".ts"@[0] == '.' && ".ts"@[1] == 't' && ".ts"@[2] == 's');
        assert(x.subrange(0, 2)[0] == x[0] && x.subrange(0, 2)[1] == x[1]);
        assert(x.subrange(n - 3, n)[0] == x[n - 3] && x.subrange(n - 3, n)[1] == x[n - 2]);
        assert(n >= 5);
        assert(t2.subrange(0, 2) =~= x.subrange(0, 2));
        assert(x.subrange(0, 2) =~= "./"@);
    }
}

} // verus!
