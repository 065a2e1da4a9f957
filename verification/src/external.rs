//! Cross-file `$ref` resolution, step by step: which file to load next, and
//! what loading it does to the document. Reading the files is left to the
//! caller, which runs the loop: it asks for the next step, loads the file
//! that the step names (resolving that file's own refs first), and applies
//! the step, until there is nothing left to load.
use vstd::prelude::*;

use crate::ir::strings_view;
use crate::openapi::{Components, OpenApiSpec};
use crate::parser::{
    external_target, merge_external_components, merged, parameters_of, schemas_of,
    spec_external_target,
};
use crate::refs::{collect_external_refs, points_into, rewrite_refs, spec_external_refs, spec_rewritten};
use crate::refs;
use crate::text;

verus! {

/// What to do next in resolving the external refs of a document.
#[derive(Debug)]
pub enum ResolveStep {
    /// Load the file `file_part` (relative to the document's directory) and
    /// merge in what `pointer_part` points into.
    Load { file_part: String, pointer_part: String },
    /// No external ref names a file that is still to be looked at.
    Done,
}

/// The index of the first of `refs`, from `i` on, that names a file to load
/// (see `spec_external_target`) that is not among `done`; `refs.len()` when
/// there is none.
pub open spec fn next_target(refs: Seq<Seq<char>>, done: Seq<Seq<char>>, i: int) -> int
    decreases refs.len() - i,
{
    if i < 0 || i >= refs.len() {
        refs.len() as int
    } else {
        match spec_external_target(refs[i]) {
            Some(t) => if !done.contains(t.0) {
                i
            } else {
                next_target(refs, done, i + 1)
            },
            None => next_target(refs, done, i + 1),
        }
    }
}

/// The step that `spec` calls for, given the files already looked at
/// (`done`): the first external ref, in the order of `spec_external_refs`,
/// that names a file not in `done` gives the file and pointer to load;
/// when there is none, resolution is done.
pub open spec fn spec_next_step(spec: OpenApiSpec, done: Seq<Seq<char>>) -> Option<(Seq<char>, Seq<char>)> {
    let refs = spec_external_refs(spec);
    let k = next_target(refs, done, 0);
    if 0 <= k < refs.len() {
        spec_external_target(refs[k])
    } else {
        None
    }
}

/// Whether `done` holds `f`.
fn holds(done: &Vec<String>, f: &String) -> (r: bool)
    ensures
        r == strings_view(done@).contains(f@),
{
    let ghost d = strings_view(done@);
    let mut i: usize = 0;
    while i < done.len()
        invariant
            0 <= i <= done@.len(),
            d == strings_view(done@),
            forall|k: int| 0 <= k < i ==> d[k] != f@,
        decreases done@.len() - i,
    {
        if text::str_equal(done[i].as_str(), f.as_str()) {
            assert(d[i as int] == f@);
            return true;
        }
        i = i + 1;
    }
    false
}

/// The next step of resolving the external refs of `spec`, given the files
/// already looked at (see `spec_next_step`).
pub fn next_resolve_step(spec: &OpenApiSpec, done: &Vec<String>) -> (r: ResolveStep)
    ensures
        match r {
            ResolveStep::Load { file_part, pointer_part } => spec_next_step(
                *spec,
                strings_view(done@),
            ) == Some((file_part@, pointer_part@)) && !strings_view(done@).contains(file_part@),
            ResolveStep::Done => spec_next_step(*spec, strings_view(done@)) is None,
        },
{
    let refs = collect_external_refs(spec);
    let ghost rv = strings_view(refs@);
    let ghost d = strings_view(done@);
    let mut i: usize = 0;
    while i < refs.len()
        invariant
            0 <= i <= refs@.len(),
            rv == strings_view(refs@),
            rv == spec_external_refs(*spec),
            d == strings_view(done@),
            next_target(rv, d, 0) == next_target(rv, d, i as int),
        decreases refs@.len() - i,
    {
        assert(rv[i as int] == refs@[i as int]@);
        match external_target(refs[i].as_str()) {
            Some((f, p)) => {
                if !holds(done, &f) {
                    return ResolveStep::Load { file_part: f, pointer_part: p };
                }
            },
            None => {},
        }
        i = i + 1;
    }
    ResolveStep::Done
}

/// `b` is `a` with the components `ext` merged in (see
/// `merge_external_components`).
pub open spec fn merged_into(a: OpenApiSpec, b: OpenApiSpec, ext: Option<Components>) -> bool {
    &&& b.openapi == a.openapi
    &&& b.info == a.info
    &&& b.paths == a.paths
    &&& ext is None ==> b.components == a.components
    &&& ext matches Some(ec) ==> {
        &&& b.components is Some
        &&& schemas_of(b.components) == merged(schemas_of(a.components), ec.schemas@)
        &&& parameters_of(b.components) == merged(parameters_of(a.components), ec.parameters@)
        &&& (a.components matches Some(c) ==> {
            &&& b.components->Some_0.request_bodies == c.request_bodies
            &&& b.components->Some_0.responses == c.responses
        })
        &&& (a.components is None ==> {
            &&& b.components->Some_0.request_bodies@.len() == 0
            &&& b.components->Some_0.responses@.len() == 0
        })
    }
}

/// Applies a `Load` step once its file is loaded: merges the file's
/// components `ext` into `spec`, then rewrites the refs into `file_part` to
/// local ones. Afterwards no external ref of `spec` points into
/// `file_part`.
pub fn apply_resolve_step(
    spec: &mut OpenApiSpec,
    file_part: &str,
    pointer_part: &str,
    ext: Option<Components>,
)
    ensures
        exists|m: OpenApiSpec|
            merged_into(*old(spec), m, ext) && #[trigger] spec_rewritten(m, *final(spec), file_part@),
        forall|k: int|
            0 <= k < spec_external_refs(*final(spec)).len() ==> !points_into(
                #[trigger] spec_external_refs(*final(spec))[k],
                file_part@,
            ),
{
    let ghost e = ext;
    merge_external_components(spec, ext);
    let ghost mid = *spec;
    assert(merged_into(*old(spec), mid, e));
    rewrite_refs(spec, file_part, pointer_part);
    proof {
        refs::law_rewrite_leaves_no_ref_into_file(mid, *spec, file_part@);
        assert(merged_into(*old(spec), mid, e) && spec_rewritten(mid, *spec, file_part@));
    }
}

proof fn lemma_target_rejoins(r: Seq<char>)
    ensures
        spec_external_target(r) matches Some(t) ==> r == t.0 + seq!['#'] + t.1,
{
    text::lemma_find_char(r, 0, '#');
    let k = text::find_char(r, 0, '#');
    if k < r.len() {
        assert(r =~= r.take(k) + seq!['#'] + r.skip(k + 1));
    }
}

proof fn lemma_next_target(refs: Seq<Seq<char>>, done: Seq<Seq<char>>, i: int)
    requires
        0 <= i <= refs.len(),
    ensures
        i <= next_target(refs, done, i) <= refs.len(),
        next_target(refs, done, i) < refs.len() ==> (spec_external_target(refs[next_target(refs, done, i)]) matches Some(
            t,
        ) && !done.contains(t.0)),
        forall|j: int|
            i <= j < next_target(refs, done, i) ==> (spec_external_target(#[trigger] refs[j]) matches Some(t)
                ==> done.contains(t.0)),
    decreases refs.len() - i,
{
    if i < refs.len() {
        lemma_next_target(refs, done, i + 1);
    }
}

/// A `Load` step names a file that an external ref of the document points
/// into (the ref is the file, `#` and the pointer) and that is not loaded
/// yet; resolution is done exactly when every external ref that names a file
/// names one already loaded.
pub proof fn law_resolve_steps(spec: OpenApiSpec, done: Seq<Seq<char>>)
    ensures
        spec_next_step(spec, done) matches Some(s) ==> (!done.contains(s.0) && spec_external_refs(spec).contains(
            s.0 + seq!['#'] + s.1,
        )),
        spec_next_step(spec, done) is None <==> forall|j: int|
            0 <= j < spec_external_refs(spec).len() ==> (spec_external_target(
                #[trigger] spec_external_refs(spec)[j],
            ) matches Some(t) ==> done.contains(t.0)),
{
    let refs = spec_external_refs(spec);
    lemma_next_target(refs, done, 0);
    let k = next_target(refs, done, 0);
    if k < refs.len() {
        lemma_target_rejoins(refs[k]);
        assert(refs[k] == spec_next_step(spec, done)->Some_0.0 + seq!['#'] + spec_next_step(spec, done)->Some_0.1);
    }
}

} // verus!
