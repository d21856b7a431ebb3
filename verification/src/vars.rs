use vstd::prelude::*;

use crate::errors::ErrorKind;
use crate::scan::{
    append_bytes, bytes_eq, find_from, lemma_find_from_bounds, spec_find_from,
};
use crate::replace::append_range;
use crate::tag::{
    lemma_parse_tag_bounds, parse_c_tag, spec_parse_tag, spec_trim, trim, SpecTagOutcome,
};
use crate::tokens;

verus! {

/// The earlier of two candidate positions.
pub open spec fn spec_earliest(n1: Option<int>, n2: Option<int>) -> Option<int> {
    match (n1, n2) {
        (None, None) => None,
        (Some(x), None) => Some(x),
        (None, Some(y)) => Some(y),
        (Some(x), Some(y)) => Some(
            if x <= y {
                x
            } else {
                y
            },
        ),
    }
}

/// The declaration-tag scan from `i` on: the directive-form header drawn
/// from the single declaration tag (if one stands there) and the body text
/// with that tag, and its discarded content, removed. `has_vars` records
/// whether a declaration tag was already taken. A closing declaration tag
/// met here is an orphan; a second declaration tag is a duplicate; a
/// non-self-closing one without its closing tag is unterminated.
pub open spec fn spec_scan_vars(s: Seq<u8>, i: int, has_vars: bool) -> Result<
    (Option<Seq<u8>>, Seq<u8>),
    (ErrorKind, int),
>
    decreases s.len() - i,
    when 0 <= i <= s.len()
{
    let n1 = spec_find_from(s, i, tokens::spec_vars_open_needle());
    let n2 = spec_find_from(s, i, tokens::spec_vars_close_needle());
    match spec_earliest(n1, n2) {
        None => Ok((None, s.subrange(i, s.len() as int))),
        Some(a) => {
            proof {
                lemma_find_from_bounds(s, i, tokens::spec_vars_open_needle());
                lemma_find_from_bounds(s, i, tokens::spec_vars_close_needle());
                lemma_parse_tag_bounds(s, a);
            }
            match spec_parse_tag(s, a) {
                SpecTagOutcome::NoMatch => match spec_scan_vars(s, a + 1, has_vars) {
                    Err(e) => Err(e),
                    Ok((v, out)) => Ok((v, s.subrange(i, a + 1) + out)),
                },
                SpecTagOutcome::Failed(k) => Err((k, a)),
                SpecTagOutcome::Tag(t) => {
                    if t.name != tokens::spec_name_vars() {
                        match spec_scan_vars(s, t.end, has_vars) {
                            Err(e) => Err(e),
                            Ok((v, out)) => Ok((v, s.subrange(i, a) + t.original + out)),
                        }
                    } else if t.is_closing {
                        Err((ErrorKind::OrphanClosingVars, a))
                    } else if has_vars {
                        Err((ErrorKind::DuplicateVars, a))
                    } else {
                        let header = tokens::spec_vars_header_open() + spec_trim(t.attrs_repr)
                            + tokens::spec_padded_close();
                        if t.is_self_closing {
                            match spec_scan_vars(s, t.end, true) {
                                Err(e) => Err(e),
                                Ok((_, out)) => Ok((Some(header), s.subrange(i, a) + out)),
                            }
                        } else {
                            match spec_find_from(s, t.end, tokens::spec_vars_close_tag()) {
                                None => Err((ErrorKind::MissingClosingVars, a)),
                                Some(c) => {
                                    proof {
                                        lemma_find_from_bounds(
                                            s,
                                            t.end,
                                            tokens::spec_vars_close_tag(),
                                        );
                                    }
                                    match spec_scan_vars(
                                        s,
                                        c + tokens::spec_vars_close_tag().len(),
                                        true,
                                    ) {
                                        Err(e) => Err(e),
                                        Ok((_, out)) => Ok(
                                            (Some(header), s.subrange(i, a) + out),
                                        ),
                                    }
                                },
                            }
                        }
                    }
                },
            }
        },
    }
}

/// The view of an optional header.
pub open spec fn opt_bytes_view(h: Option<Vec<u8>>) -> Option<Seq<u8>> {
    match h {
        Some(v) => Some(v@),
        None => None,
    }
}

/// How a finished prefix combines with what the rest of the scan yields.
pub open spec fn spec_vars_merge(
    hdr: Option<Seq<u8>>,
    out0: Seq<u8>,
    rest: Result<(Option<Seq<u8>>, Seq<u8>), (ErrorKind, int)>,
) -> Result<(Option<Seq<u8>>, Seq<u8>), (ErrorKind, int)> {
    match rest {
        Err(e) => Err(e),
        Ok((v2, out2)) => Ok(
            (
                if hdr is Some {
                    hdr
                } else {
                    v2
                },
                out0 + out2,
            ),
        ),
    }
}

/// Extracts the single declaration tag, if any: returns the directive-form
/// header to prepend and the body with the tag (and its discarded content)
/// removed.
#[verifier::rlimit(100)]
#[verifier::spinoff_prover]
pub fn process_c_vars(s: &[u8]) -> (r: Result<(Option<Vec<u8>>, Vec<u8>), (ErrorKind, usize)>)
    ensures
        match r {
            Ok((hdr, out)) => spec_scan_vars(s@, 0, false) == Ok::<_, (ErrorKind, int)>(
                (opt_bytes_view(hdr), out@),
            ),
            Err((k, p)) => spec_scan_vars(s@, 0, false) == Err::<
                (Option<Seq<u8>>, Seq<u8>),
                _,
            >((k, p as int)) && p < s@.len(),
        },
{
    let mut header: Option<Vec<u8>> = None;
    let mut output: Vec<u8> = Vec::new();
    let mut index: usize = 0;
    let open_needle = tokens::vars_open_needle();
    let close_needle = tokens::vars_close_needle();
    let close_tag = tokens::vars_close_tag();
    proof {
        let rest = spec_scan_vars(s@, 0, false);
        match rest {
            Err(_) => {},
            Ok((v2, out2)) => {
                assert(Seq::<u8>::empty() + out2 =~= out2);
            },
        }
    }
    loop
        invariant_except_break
            0 <= index <= s@.len(),
            open_needle@ == tokens::spec_vars_open_needle(),
            close_needle@ == tokens::spec_vars_close_needle(),
            close_tag@ == tokens::spec_vars_close_tag(),
            spec_scan_vars(s@, 0, false) == spec_vars_merge(
                opt_bytes_view(header),
                output@,
                spec_scan_vars(s@, index as int, header is Some),
            ),
        ensures
            spec_scan_vars(s@, 0, false) == Ok::<_, (ErrorKind, int)>(
                (opt_bytes_view(header), output@),
            ),
        decreases s@.len() - index,
    {
        let ghost idx0 = index as int;
        let ghost hv0 = header is Some;
        let ghost out0 = output@;
        let n1 = find_from(s, index, open_needle.as_slice());
        let n2 = find_from(s, index, close_needle.as_slice());
        let a_opt: Option<usize> = match (n1, n2) {
            (None, None) => None,
            (Some(x), None) => Some(x),
            (None, Some(y)) => Some(y),
            (Some(x), Some(y)) => Some(
                if x <= y {
                    x
                } else {
                    y
                },
            ),
        };
        let a = match a_opt {
            None => {
                append_range(&mut output, s, index, s.len());
                break;
            },
            Some(a) => a,
        };
        proof {
            lemma_parse_tag_bounds(s@, a as int);
        }
        match parse_c_tag(s, a) {
            Ok(None) => {
                assert(a + 1 <= s.len());
                append_range(&mut output, s, index, a + 1);
                index = a + 1;
                proof {
                    let cn = spec_scan_vars(s@, index as int, hv0);
                    match cn {
                        Err(_) => {},
                        Ok((v2, out2)) => {
                            assert(out0 + (s@.subrange(idx0, a + 1) + out2) =~= (out0
                                + s@.subrange(idx0, a + 1)) + out2);
                        },
                    }
                }
            },
            Err(k) => {
                return Err((k, a));
            },
            Ok(Some(tag)) => {
                let vars_name = tokens::name_vars();
                if !bytes_eq(tag.name.as_slice(), vars_name.as_slice()) {
                    append_range(&mut output, s, index, a);
                    append_bytes(&mut output, tag.original.as_slice());
                    index = tag.end;
                    proof {
                        let cn = spec_scan_vars(s@, index as int, hv0);
                        match cn {
                            Err(_) => {},
                            Ok((v2, out2)) => {
                                assert(out0 + (s@.subrange(idx0, a as int) + tag@.original + out2)
                                    =~= ((out0 + s@.subrange(idx0, a as int)) + tag@.original)
                                    + out2);
                            },
                        }
                    }
                } else if tag.is_closing {
                    return Err((ErrorKind::OrphanClosingVars, a));
                } else if header.is_some() {
                    return Err((ErrorKind::DuplicateVars, a));
                } else {
                    let trimmed = trim(tag.attrs_repr.as_slice());
                    let mut h = tokens::vars_header_open();
                    append_bytes(&mut h, trimmed.as_slice());
                    let pc = tokens::padded_close();
                    append_bytes(&mut h, pc.as_slice());
                    let ghost hs = tokens::spec_vars_header_open() + spec_trim(tag@.attrs_repr)
                        + tokens::spec_padded_close();
                    proof {
                        assert(h@ =~= hs);
                    }
                    if tag.is_self_closing {
                        append_range(&mut output, s, index, a);
                        header = Some(h);
                        index = tag.end;
                        proof {
                            let cn = spec_scan_vars(s@, index as int, true);
                            match cn {
                                Err(_) => {},
                                Ok((v2, out2)) => {
                                    assert(out0 + (s@.subrange(idx0, a as int) + out2) =~= (out0
                                        + s@.subrange(idx0, a as int)) + out2);
                                },
                            }
                        }
                    } else {
                        match find_from(s, tag.end, close_tag.as_slice()) {
                            None => {
                                return Err((ErrorKind::MissingClosingVars, a));
                            },
                            Some(c) => {
                                assert(c + close_tag@.len() <= s.len());
                                append_range(&mut output, s, index, a);
                                header = Some(h);
                                index = c + close_tag.len();
                                proof {
                                    let cn = spec_scan_vars(s@, index as int, true);
                                    match cn {
                                        Err(_) => {},
                                        Ok((v2, out2)) => {
                                            assert(out0 + (s@.subrange(idx0, a as int) + out2)
                                                =~= (out0 + s@.subrange(idx0, a as int)) + out2);
                                        },
                                    }
                                }
                            },
                        }
                    }
                }
            },
        }
    }
    Ok((header, output))
}

} // verus!
