//! The decisions of spec parsing: the version check, Swagger 2.0 detection,
//! and the steps of cross-file `$ref` resolution (where a ref points, and
//! how another file's components are merged in).
use vstd::prelude::*;

use crate::openapi::{Components, OpenApiSpec};
use crate::openapi;
use crate::text;
use crate::value::Value;
use crate::value;

verus! {

/// Why a spec could not be parsed.
#[derive(Debug)]
pub enum ParseError {
    /// The YAML text is malformed (the message of the YAML parser).
    Yaml(String),
    /// The JSON text is malformed (the message of the JSON parser).
    Json(String),
    /// The `openapi` version is not 3.0 or 3.1, or a Swagger document is
    /// not a mapping.
    UnsupportedVersion(String),
    UnresolvedRef(String),
    /// A file could not be read (its path and the reason).
    FileRead { path: String, source: String },
}

/// The `openapi` version is one that the generator reads: 3.0.x or 3.1.x.
pub open spec fn supported_version(v: Seq<char>) -> bool {
    text::has_prefix(v, "3.0"@) || text::has_prefix(v, "3.1"@)
}

/// Accepts a parsed OpenAPI document when its version starts with `3.0` or
/// `3.1`, and refuses it with `UnsupportedVersion(version)` otherwise.
pub fn check_version(spec: OpenApiSpec) -> (r: Result<OpenApiSpec, ParseError>)
    ensures
        supported_version(spec.openapi@) ==> r == Ok::<OpenApiSpec, ParseError>(spec),
        !supported_version(spec.openapi@) ==> (r matches Err(ParseError::UnsupportedVersion(v))
            && v@ == spec.openapi@),
{
    let v = text::chars_of(spec.openapi.as_str());
    let v30 = text::chars_of("3.0");
    let v31 = text::chars_of("3.1");
    if text::starts_with(v.as_slice(), v30.as_slice()) || text::starts_with(
        v.as_slice(),
        v31.as_slice(),
    ) {
        Ok(spec)
    } else {
        let version = spec.openapi.clone();
        Err(ParseError::UnsupportedVersion(version))
    }
}

/// The document declares `swagger: "2.x"`.
pub open spec fn spec_is_swagger2(raw: value::ValueV) -> bool {
    match value::opt_str(value::spec_get(raw, "swagger"@)) {
        Some(v) => text::has_prefix(v, "2."@),
        None => false,
    }
}

/// Whether a raw document is a Swagger 2.0 document (its `swagger` field is a
/// string that starts with `2.`), which is converted before it is read.
pub fn is_swagger2(raw: &Value) -> (r: bool)
    ensures
        r == spec_is_swagger2(raw@),
{
    match value::get(raw, "swagger") {
        Some(Value::String(s)) => {
            let c = text::chars_of(s.as_str());
            let p = text::chars_of("2.");
            text::starts_with(c.as_slice(), p.as_slice())
        },
        _ => false,
    }
}

/// Where an external `$ref` points: its file part (before the first `#`)
/// and its pointer part (after it), when there is a `#`, the file part is
/// not empty and holds no `://` (URL refs are left alone).
pub open spec fn spec_external_target(r: Seq<char>) -> Option<(Seq<char>, Seq<char>)> {
    let k = text::find_char(r, 0, '#');
    if k >= r.len() {
        None
    } else {
        let file = r.take(k);
        let pointer = r.skip(k + 1);
        if file.len() == 0 || contains_seq(file, "://"@) {
            None
        } else {
            Some((file, pointer))
        }
    }
}

/// `needle` occurs in `s`.
pub open spec fn contains_seq(s: Seq<char>, needle: Seq<char>) -> bool {
    exists|i: int| 0 <= i && i + needle.len() <= s.len() && #[trigger] s.subrange(i, i + needle.len()) == needle
}

/// Whether `needle` occurs in `s`.
pub fn contains_slice(s: &[char], needle: &[char]) -> (r: bool)
    ensures
        r == contains_seq(s@, needle@),
{
    if needle.len() > s.len() {
        return false;
    }
    let mut i: usize = 0;
    while i <= s.len() - needle.len()
        invariant
            needle.len() <= s.len(),
            0 <= i <= s.len() - needle.len() + 1,
            forall|k: int| 0 <= k < i ==> #[trigger] s@.subrange(k, k + needle.len()) != needle@,
        decreases s.len() - i,
    {
        let mut j: usize = 0;
        let mut same = true;
        while j < needle.len()
            invariant
                i + needle.len() <= s.len(),
                0 <= j <= needle.len(),
                same == (forall|m: int| 0 <= m < j ==> s@[i + m] == needle@[m]),
            decreases needle.len() - j,
        {
            if s[i + j] != needle[j] {
                same = false;
            }
            j = j + 1;
        }
        if same {
            assert(s@.subrange(i as int, i + needle.len()) =~= needle@);
            return true;
        } else {
            proof {
                let m = choose|m: int| 0 <= m < needle.len() && s@[i + m] != needle@[m];
                assert(s@.subrange(i as int, i + needle.len())[m] != needle@[m]);
            }
        }
        i = i + 1;
    }
    assert forall|k: int| 0 <= k && k + needle.len() <= s.len() implies #[trigger] s@.subrange(
        k,
        k + needle.len(),
    ) != needle@ by {
        assert(k < i);
    }
    false
}

/// Splits `path/to/file.yaml#/components/schemas/Name` into the file to load
/// and the pointer in it; `None` for refs that are skipped (no `#`, a local
/// ref with an empty file part, or a URL).
pub fn external_target(ext_ref: &str) -> (r: Option<(String, String)>)
    ensures
        match r {
            Some((f, p)) => spec_external_target(ext_ref@) == Some((f@, p@)),
            None => spec_external_target(ext_ref@) is None,
        },
{
    let s = text::chars_of(ext_ref);
    let mut k: usize = 0;
    while k < s.len() && s[k] != '#'
        invariant
            0 <= k <= s.len(),
            s@ == ext_ref@,
            text::find_char(s@, k as int, '#') == text::find_char(s@, 0, '#'),
        decreases s.len() - k,
    {
        k = k + 1;
    }
    if k == s.len() {
        return None;
    }
    let mut file: Vec<char> = Vec::new();
    let mut i: usize = 0;
    while i < k
        invariant
            0 <= i <= k < s.len(),
            file@ == s@.take(i as int),
        decreases k - i,
    {
        file.push(s[i]);
        assert(file@ =~= s@.take(i + 1));
        i = i + 1;
    }
    let mut pointer: Vec<char> = Vec::new();
    let mut j: usize = k + 1;
    while j < s.len()
        invariant
            k < j <= s.len(),
            pointer@ == s@.subrange(k + 1, j as int),
        decreases s.len() - j,
    {
        pointer.push(s[j]);
        j = j + 1;
    }
    assert(pointer@ =~= s@.skip(k + 1));
    let url = text::chars_of("://");
    if file.len() == 0 || contains_slice(file.as_slice(), url.as_slice()) {
        return None;
    }
    Some((text::string_of(file.as_slice()), text::string_of(pointer.as_slice())))
}

/// `base` with each entry of `ext` appended whose key is not yet present
/// (earlier entries win).
pub open spec fn merged<V>(base: Seq<(String, V)>, ext: Seq<(String, V)>) -> Seq<(String, V)>
    decreases ext.len(),
{
    if ext.len() == 0 {
        base
    } else {
        let m = merged(base, ext.drop_last());
        if openapi::lookup(m, ext.last().0@) is Some {
            m
        } else {
            m.push(ext.last())
        }
    }
}

/// Appends each entry of `ext` whose key `target` does not hold yet.
pub fn merge_entries<V>(target: &mut Vec<(String, V)>, ext: Vec<(String, V)>)
    ensures
        final(target)@ == merged(old(target)@, ext@),
{
    let ghost e0 = ext@;
    let ghost t0 = target@;
    let mut ext = ext;
    let n = ext.len();
    let mut k: usize = 0;
    while ext.len() > 0
        invariant
            n == e0.len(),
            0 <= k <= e0.len(),
            ext@ == e0.skip(k as int),
            target@ == merged(t0, e0.take(k as int)),
        decreases ext@.len(),
    {
        assert(ext@.len() == e0.len() - k);
        let entry = ext.remove(0);
        proof {
            assert(e0.take(k + 1).drop_last() =~= e0.take(k as int));
            assert(e0.take(k + 1).last() == entry);
            assert(ext@ =~= e0.skip(k + 1));
        }
        if openapi::find_entry(target, entry.0.as_str()).is_none() {
            target.push(entry);
        }
        k = k + 1;
    }
    assert(e0.take(k as int) =~= e0);
}

/// The entries of an optional components object's schemas (none when absent).
pub open spec fn schemas_of(c: Option<Components>) -> Seq<(String, openapi::SchemaOrRef)> {
    match c {
        Some(c) => c.schemas@,
        None => seq![],
    }
}

/// The entries of an optional components object's parameters (none when absent).
pub open spec fn parameters_of(c: Option<Components>) -> Seq<(String, openapi::ParameterOrRef)> {
    match c {
        Some(c) => c.parameters@,
        None => seq![],
    }
}

/// Merges another file's components into `spec`: its schemas and parameters
/// whose names `spec` does not have yet are added (creating the components
/// object when needed); request bodies and responses are not merged.
pub fn merge_external_components(spec: &mut OpenApiSpec, ext: Option<Components>)
    ensures
        final(spec).openapi == old(spec).openapi,
        final(spec).info == old(spec).info,
        final(spec).paths == old(spec).paths,
        ext is None ==> final(spec).components == old(spec).components,
        ext matches Some(ec) ==> {
            &&& final(spec).components is Some
            &&& schemas_of(final(spec).components) == merged(
                schemas_of(old(spec).components),
                ec.schemas@,
            )
            &&& parameters_of(final(spec).components) == merged(
                parameters_of(old(spec).components),
                ec.parameters@,
            )
            &&& (old(spec).components matches Some(c) ==> {
                &&& final(spec).components->Some_0.request_bodies == c.request_bodies
                &&& final(spec).components->Some_0.responses == c.responses
            })
            &&& (old(spec).components is None ==> {
                &&& final(spec).components->Some_0.request_bodies@.len() == 0
                &&& final(spec).components->Some_0.responses@.len() == 0
            })
        },
{
    match ext {
        Some(ec) => {
            if spec.components.is_none() {
                spec.components = Some(
                    Components {
                        schemas: Vec::new(),
                        parameters: Vec::new(),
                        request_bodies: Vec::new(),
                        responses: Vec::new(),
                    },
                );
            }
            match &mut spec.components {
                Some(c) => {
                    merge_entries(&mut c.schemas, ec.schemas);
                    merge_entries(&mut c.parameters, ec.parameters);
                },
                None => {},
            }
        },
        None => {},
    }
}

/// Looking up a key after appending an entry finds what it found before,
/// if anything, else the new entry when its key matches.
proof fn lemma_lookup_push<V>(m: Seq<(String, V)>, x: (String, V), k: Seq<char>)
    ensures
        openapi::lookup(m.push(x), k) == match openapi::lookup(m, k) {
            Some(v) => Some(v),
            None => if x.0@ == k {
                Some(x.1)
            } else {
                None
            },
        },
    decreases m.len(),
{
    if m.len() > 0 {
        assert(m.push(x)[0] == m[0]);
        assert(m.push(x).drop_first() =~= m.drop_first().push(x));
        lemma_lookup_push(m.drop_first(), x, k);
    } else {
        assert(m.push(x)[0] == x);
        assert(m.push(x).drop_first() =~= Seq::<(String, V)>::empty());
        assert(openapi::lookup(Seq::<(String, V)>::empty(), k) is None);
        assert(openapi::lookup(m, k) is None);
    }
}

/// Merging another file's entries keeps every entry already there, in
/// place, with its value (earlier entries win), and afterwards every key of
/// the other file is found.
pub proof fn law_merge_keeps_entries<V>(base: Seq<(String, V)>, ext: Seq<(String, V)>)
    ensures
        merged(base, ext).len() >= base.len(),
        merged(base, ext).take(base.len() as int) == base,
        forall|j: int| 0 <= j < ext.len() ==> openapi::lookup(merged(base, ext), (#[trigger] ext[j]).0@) is Some,
        forall|k: Seq<char>| #[trigger] openapi::lookup(base, k) is Some ==> openapi::lookup(merged(base, ext), k)
            == openapi::lookup(base, k),
    decreases ext.len(),
{
    if ext.len() > 0 {
        let e = ext.drop_last();
        law_merge_keeps_entries(base, e);
        let m = merged(base, e);
        let x = ext.last();
        assert forall|k: Seq<char>| #[trigger] openapi::lookup(m, k) is Some implies openapi::lookup(
            m.push(x),
            k,
        ) == openapi::lookup(m, k) by {
            lemma_lookup_push(m, x, k);
        }
        assert forall|j: int| 0 <= j < ext.len() implies openapi::lookup(
            merged(base, ext),
            (#[trigger] ext[j]).0@,
        ) is Some by {
            lemma_lookup_push(m, x, ext[j].0@);
            if j < ext.len() - 1 {
                assert(e[j] == ext[j]);
            }
        }
        assert forall|k: Seq<char>| #[trigger] openapi::lookup(base, k) is Some implies openapi::lookup(
            merged(base, ext),
            k,
        ) == openapi::lookup(base, k) by {
            lemma_lookup_push(m, x, k);
        }
        if openapi::lookup(m, x.0@) is None {
            assert(m.push(x).take(base.len() as int) =~= m.take(base.len() as int));
        }
    } else {
        assert(base.take(base.len() as int) =~= base);
    }
}

/// An external ref splits at its first `#` into the file to load and the
/// pointer inside it: `f#p` with a non-empty file part `f` that holds no `#`
/// and no `://` gives `(f, p)`; a ref without a `#`, or with nothing before
/// it, names no file.
pub proof fn law_external_target_splits(f: Seq<char>, p: Seq<char>, r: Seq<char>)
    ensures
        (f.len() > 0 && !f.contains('#') && !contains_seq(f, "://"@)) ==> spec_external_target(
            f + seq!['#'] + p,
        ) == Some((f, p)),
        !r.contains('#') ==> spec_external_target(r) is None,
        (r.len() > 0 && r[0] == '#') ==> spec_external_target(r) is None,
{
    let s = f + seq!['#'] + p;
    text::lemma_find_char(s, 0, '#');
    if f.len() > 0 && !f.contains('#') && !contains_seq(f, "://"@) {
        let k = text::find_char(s, 0, '#');
        assert(s[f.len() as int] == '#');
        if k < f.len() {
            assert(s[k] == f[k]);
        }
        assert(k == f.len());
        assert(s.take(k) =~= f);
        assert(s.skip(k + 1) =~= p);
    }
    text::lemma_find_char(r, 0, '#');
    if !r.contains('#') {
        let k = text::find_char(r, 0, '#');
        if k < r.len() {
            assert(r[k] == '#');
        }
    }
    if r.len() > 0 && r[0] == '#' {
        assert(text::find_char(r, 0, '#') == 0);
        assert(r.take(0).len() == 0);
    }
}

/// The versions read are exactly those that start with `3.0` or `3.1`.
pub proof fn law_supported_versions(v: Seq<char>)
    ensures
        supported_version(v) <==> (v.len() >= 3 && v[0] == '3' && v[1] == '.' && (v[2] == '0' || v[2] == '1')),
{
    reveal_strlit("3.0");
    reveal_strlit("3.1");
    if v.len() >= 3 && v[0] == '3' && v[1] == '.' && v[2] == '0' {
        assert(v.subrange(0, 3) =~= "3.0"@);
    }
    if v.len() >= 3 && v[0] == '3' && v[1] == '.' && v[2] == '1' {
        assert(v.subrange(0, 3) =~= "3.1"@);
    }
    assert("3.0"@[0] == '3' && "3.0"@[1] == '.' && "3.0"@[2] == '0' && "3.0"@.len() == 3);
    assert("3.1"@[0] == '3' && "3.1"@[1] == '.' && "3.1"@[2] == '1' && "3.1"@.len() == 3);
    if text::has_prefix(v, "3.0"@) || text::has_prefix(v, "3.1"@) {
        assert(v.subrange(0, 3)[0] == v[0] && v.subrange(0, 3)[1] == v[1] && v.subrange(0, 3)[2] == v[2]);
    }
}

/// A document is Swagger 2 exactly when its `swagger` field is a string
/// that starts with `2.`.
pub proof fn law_swagger2_detection(raw: value::ValueV)
    ensures
        spec_is_swagger2(raw) <==> (value::spec_get(raw, "swagger"@) matches Some(value::ValueV::String(v))
            && v.len() >= 2 && v[0] == '2' && v[1] == '.'),
{
    reveal_strlit("2.");
    match value::spec_get(raw, "swagger"@) {
        Some(value::ValueV::String(v)) => {
            if v.len() >= 2 && v[0] == '2' && v[1] == '.' {
                assert(v.subrange(0, 2) =~= "2."@);
            }
            assert("2."@[0] == '2' && "2."@[1] == '.' && "2."@.len() == 2);
            if text::has_prefix(v, "2."@) {
                assert(v.subrange(0, 2)[0] == v[0] && v.subrange(0, 2)[1] == v[1]);
            }
        },
        _ => {},
    }
}

} // verus!
