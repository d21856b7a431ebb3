use vstd::prelude::*;

pub mod errors;
pub mod ignorables;
pub mod laws;
pub mod replace;
pub mod rewrite;
pub mod scan;
pub mod tag;
pub mod tokens;
pub mod vars;

use crate::errors::{line_of, spec_line_of, ErrorKind, TemplateError};
use crate::ignorables::{exclude_ignorables, restore_ignorables, spec_exclude, spec_restore};
use crate::replace::{replace_all, spec_replace_all};
use crate::rewrite::{collect_replacements, deps_view, reps_view, spec_collect};
use crate::scan::append_bytes;
use crate::vars::{process_c_vars, spec_scan_vars};

verus! {

/// The compiled template text and the component names it depends on, in
/// first-seen order without repetition.
pub struct ProcessedResult {
    pub compiled: Vec<u8>,
    pub dependencies: Vec<Vec<u8>>,
}

/// The text after the replacements from `idx` on are applied in order, each
/// as a global substitution of its original slice.
pub open spec fn spec_apply_replacements(
    s: Seq<u8>,
    reps: Seq<(Seq<u8>, Seq<u8>)>,
    idx: int,
) -> Seq<u8>
    decreases reps.len() - idx,
    when 0 <= idx <= reps.len()
{
    if idx >= reps.len() {
        s
    } else {
        spec_apply_replacements(spec_replace_all(s, reps[idx].0, reps[idx].1), reps, idx + 1)
    }
}

/// The whole pipeline on one template: ignorable regions out, the single
/// declaration tag extracted, the remaining tags rewritten and applied, the
/// header prepended with its terminator appended, and the ignorable regions
/// restored. An error carries its 1-based line in the text the failing
/// stage scanned.
pub open spec fn spec_process(s: Seq<u8>) -> Result<(Seq<u8>, Seq<Seq<u8>>), (ErrorKind, int)> {
    let (t1, igs) = spec_exclude(s, 0, 0);
    match spec_scan_vars(t1, 0, false) {
        Err((k, p)) => Err((k, spec_line_of(t1, p) as int)),
        Ok((hdr, t2)) => match spec_collect(t2, 0, Seq::empty()) {
            Err((k, p)) => Err((k, spec_line_of(t2, p) as int)),
            Ok((reps, deps)) => {
                let applied = spec_apply_replacements(t2, reps, 0);
                let full = match hdr {
                    Some(h) => h + applied + tokens::spec_end_vars(),
                    None => applied,
                };
                Ok((spec_restore(full, igs, 0), deps))
            },
        },
    }
}

/// Runs the four pipeline stages in order.
fn process_internal(source: &[u8]) -> (r: Result<ProcessedResult, TemplateError>)
    ensures
        match r {
            Ok(res) => spec_process(source@) == Ok::<_, (ErrorKind, int)>(
                (res.compiled@, deps_view(res.dependencies@)),
            ),
            Err(e) => spec_process(source@) == Err::<(Seq<u8>, Seq<Seq<u8>>), _>(
                (e.kind, e.line as int),
            ),
        },
{
    let (t1, ignorables) = exclude_ignorables(source);
    let (header, t2) = match process_c_vars(t1.as_slice()) {
        Err((k, p)) => {
            let line = line_of(t1.as_slice(), p);
            return Err(TemplateError { line, kind: k });
        },
        Ok(pair) => pair,
    };
    let (replacements, dependencies) = match collect_replacements(t2.as_slice()) {
        Err((k, p)) => {
            let n = t2.len();
            assert(p < n);
            let line = line_of(t2.as_slice(), p);
            return Err(TemplateError { line, kind: k });
        },
        Ok(pair) => pair,
    };
    let ghost st2 = t2@;
    let ghost sreps = reps_view(replacements@);
    let mut compiled = t2;
    let mut idx: usize = 0;
    while idx < replacements.len()
        invariant
            0 <= idx <= replacements@.len(),
            sreps == reps_view(replacements@),
            spec_apply_replacements(compiled@, sreps, idx as int) == spec_apply_replacements(
                st2,
                sreps,
                0,
            ),
        decreases replacements@.len() - idx,
    {
        let pair = &replacements[idx];
        if pair.0.len() > 0 {
            compiled = replace_all(compiled.as_slice(), pair.0.as_slice(), pair.1.as_slice());
        }
        idx += 1;
    }
    let full = match header {
        Some(h) => {
            let mut f = h;
            append_bytes(&mut f, compiled.as_slice());
            let ev = tokens::end_vars();
            append_bytes(&mut f, ev.as_slice());
            f
        },
        None => compiled,
    };
    let restored = restore_ignorables(full, &ignorables);
    Ok(ProcessedResult { compiled: restored, dependencies })
}

/// Compiles one template and returns the rewritten text.
pub fn process(source: &[u8]) -> (r: Result<Vec<u8>, TemplateError>)
    ensures
        match r {
            Ok(compiled) => spec_process(source@) matches Ok(p) && p.0 == compiled@,
            Err(e) => spec_process(source@) == Err::<(Seq<u8>, Seq<Seq<u8>>), _>(
                (e.kind, e.line as int),
            ),
        },
{
    match process_internal(source) {
        Ok(res) => Ok(res.compiled),
        Err(e) => Err(e),
    }
}

/// Compiles one template and returns both the rewritten text and the
/// dependency list.
pub fn process_with_dependencies(source: &[u8]) -> (r: Result<
    (Vec<u8>, Vec<Vec<u8>>),
    TemplateError,
>)
    ensures
        match r {
            Ok(pair) => spec_process(source@) == Ok::<_, (ErrorKind, int)>(
                (pair.0@, deps_view(pair.1@)),
            ),
            Err(e) => spec_process(source@) == Err::<(Seq<u8>, Seq<Seq<u8>>), _>(
                (e.kind, e.line as int),
            ),
        },
{
    match process_internal(source) {
        Ok(res) => Ok((res.compiled, res.dependencies)),
        Err(e) => Err(e),
    }
}

/// Runs the full pipeline and returns only the dependency list.
pub fn get_dependencies(source: &[u8]) -> (r: Result<Vec<Vec<u8>>, TemplateError>)
    ensures
        match r {
            Ok(deps) => spec_process(source@) matches Ok(p) && p.1 == deps_view(deps@),
            Err(e) => spec_process(source@) == Err::<(Seq<u8>, Seq<Seq<u8>>), _>(
                (e.kind, e.line as int),
            ),
        },
{
    match process_internal(source) {
        Ok(res) => Ok(res.dependencies),
        Err(e) => Err(e),
    }
}

} // verus!
