use vstd::prelude::*;

verus! {

/// The closed set of failures the compiler can report.
#[derive(Clone, Copy, PartialEq, Eq, Structural, Debug)]
pub enum ErrorKind {
    /// A `c-` tag whose component name is empty.
    MissingComponentName,
    /// A `c-` tag with no unquoted `>` before the end of the input.
    UnterminatedTag,
    /// A closing declaration tag with no matching opening tag.
    OrphanClosingVars,
    /// A second declaration tag in one template.
    DuplicateVars,
    /// A non-self-closing declaration tag with no closing tag.
    MissingClosingVars,
    /// An opening slot tag without a valued `name` attribute.
    SlotMissingName,
    /// A dynamic component tag without a valued `is` attribute.
    ComponentMissingIs,
}

/// A failure, reported with the 1-based line on which it was found.
#[derive(Clone, Copy, PartialEq, Eq, Structural, Debug)]
pub struct TemplateError {
    pub line: usize,
    pub kind: ErrorKind,
}

/// Count of newline bytes strictly before index `i`.
pub open spec fn spec_count_newlines(s: Seq<u8>, i: int) -> nat
    decreases i,
    when 0 <= i <= s.len()
{
    if i <= 0 {
        0
    } else {
        spec_count_newlines(s, i - 1) + (if s[i - 1] == 10 {
            1nat
        } else {
            0nat
        })
    }
}

/// The 1-based line number of position `pos` in `s`.
pub open spec fn spec_line_of(s: Seq<u8>, pos: int) -> nat {
    spec_count_newlines(s, pos) + 1
}

/// Computes the 1-based line number of `pos` by counting the newline bytes
/// before it.
pub fn line_of(s: &[u8], pos: usize) -> (r: usize)
    requires
        pos <= s@.len(),
        pos < usize::MAX,
    ensures
        r == spec_line_of(s@, pos as int),
{
    let mut count: usize = 0;
    let mut j: usize = 0;
    while j < pos
        invariant
            0 <= j <= pos <= s@.len(),
            count == spec_count_newlines(s@, j as int),
            count <= j,
        decreases pos - j,
    {
        if s[j] == 10 {
            count += 1;
        }
        j += 1;
    }
    count + 1
}

} // verus!
