use vstd::prelude::*;

use crate::scan::{append_bytes, find_from, lemma_find_from_bounds, spec_find_from};

verus! {

/// Appends the bytes of `s` between `a` and `b` to `out`.
pub fn append_range(out: &mut Vec<u8>, s: &[u8], a: usize, b: usize)
    requires
        a <= b <= s@.len(),
    ensures
        final(out)@ == old(out)@ + s@.subrange(a as int, b as int),
{
    let mut j: usize = a;
    while j < b
        invariant
            a <= j <= b <= s@.len(),
            out@ == old(out)@ + s@.subrange(a as int, j as int),
        decreases b - j,
    {
        out.push(s[j]);
        assert((old(out)@ + s@.subrange(a as int, j as int)).push(s@[j as int]) =~= old(out)@
            + s@.subrange(a as int, j + 1));
        j += 1;
    }
}

/// What is left of `s` from `i` on after every occurrence of `from` is
/// replaced by `to`, scanning left to right over non-overlapping occurrences.
pub open spec fn spec_replace_from(s: Seq<u8>, i: int, from: Seq<u8>, to: Seq<u8>) -> Seq<u8>
    decreases s.len() - i,
    when 0 <= i <= s.len() && from.len() > 0
{
    match spec_find_from(s, i, from) {
        None => s.subrange(i, s.len() as int),
        Some(j) => {
            proof {
                lemma_find_from_bounds(s, i, from);
            }
            s.subrange(i, j) + to + spec_replace_from(s, j + from.len(), from, to)
        },
    }
}

/// `s` with every occurrence of `from` replaced by `to`; an empty `from`
/// replaces nothing.
pub open spec fn spec_replace_all(s: Seq<u8>, from: Seq<u8>, to: Seq<u8>) -> Seq<u8> {
    if from.len() == 0 {
        s
    } else {
        spec_replace_from(s, 0, from, to)
    }
}

/// Replaces every occurrence of `from` in `s` by `to`, left to right.
pub fn replace_all(s: &[u8], from: &[u8], to: &[u8]) -> (r: Vec<u8>)
    requires
        from@.len() > 0,
    ensures
        r@ == spec_replace_all(s@, from@, to@),
{
    let mut out: Vec<u8> = Vec::new();
    let mut i: usize = 0;
    loop
        invariant_except_break
            0 <= i <= s@.len(),
            from@.len() > 0,
            spec_replace_from(s@, 0, from@, to@) == out@ + spec_replace_from(
                s@,
                i as int,
                from@,
                to@,
            ),
        ensures
            out@ == spec_replace_from(s@, 0, from@, to@),
        decreases s@.len() - i,
    {
        match find_from(s, i, from) {
            None => {
                append_range(&mut out, s, i, s.len());
                break;
            },
            Some(j) => {
                let ghost prev = out@;
                append_range(&mut out, s, i, j);
                append_bytes(&mut out, to);
                proof {
                    assert(prev + (s@.subrange(i as int, j as int) + to@ + spec_replace_from(
                        s@,
                        j + from@.len(),
                        from@,
                        to@,
                    )) =~= (prev + s@.subrange(i as int, j as int) + to@) + spec_replace_from(
                        s@,
                        j + from@.len(),
                        from@,
                        to@,
                    ));
                }
                assert(j + from@.len() <= s.len());
                i = j + from.len();
            },
        }
    }
    out
}

} // verus!
