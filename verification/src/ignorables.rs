use vstd::prelude::*;

use crate::replace::{replace_all, spec_replace_all};
use crate::scan::{
    copy_range, find_from, lemma_find_from_bounds, lemma_skip_identifier_bounds,
    lemma_skip_whitespace_bounds, match_at, push_decimal, skip_identifier, skip_whitespace,
    spec_decimal, spec_find_from, spec_skip_identifier, spec_skip_whitespace, starts_with_at,
};
use crate::tokens;

verus! {

/// A region excluded from tag rewriting, remembered with the placeholder
/// that stands for it.
pub struct Ignorable {
    pub placeholder: Vec<u8>,
    pub content: Vec<u8>,
}

/// The mathematical shape of an `Ignorable`.
#[verifier::ext_equal]
pub struct SpecIgnorable {
    pub placeholder: Seq<u8>,
    pub content: Seq<u8>,
}

impl View for Ignorable {
    type V = SpecIgnorable;

    open spec fn view(&self) -> SpecIgnorable {
        SpecIgnorable { placeholder: self.placeholder@, content: self.content@ }
    }
}

/// The view of a list of ignorables.
pub open spec fn igs_view(igs: Seq<Ignorable>) -> Seq<SpecIgnorable> {
    igs.map_values(|g: Ignorable| g@)
}

/// The placeholder token for the `k`-th excluded region.
pub open spec fn spec_placeholder(k: nat) -> Seq<u8> {
    tokens::spec_placeholder_prefix() + spec_decimal(k) + tokens::spec_placeholder_suffix()
}

/// Builds the placeholder token for the `k`-th excluded region.
pub fn placeholder(k: usize) -> (v: Vec<u8>)
    ensures
        v@ == spec_placeholder(k as nat),
        v@.len() > 0,
{
    let mut v = tokens::placeholder_prefix();
    push_decimal(&mut v, k);
    let suffix = tokens::placeholder_suffix();
    crate::scan::append_bytes(&mut v, suffix.as_slice());
    proof {
        assert(v@ =~= spec_placeholder(k as nat));
    }
    v
}

/// Position one past the close of the named block whose closing keyword is
/// `kw`, sought from `pos` on: at each `{%`, the keyword must follow the
/// whitespace, run out as an identifier, and be closed by `%}` after
/// whitespace; any other `{%` is stepped over.
pub open spec fn spec_find_named_block_end(s: Seq<u8>, pos: int, kw: Seq<u8>) -> Option<int>
    decreases s.len() - pos,
    when 0 <= pos <= s.len()
{
    match spec_find_from(s, pos, tokens::spec_directive_open()) {
        None => None,
        Some(bs) => {
            let ks = spec_skip_whitespace(s, bs + 2);
            if match_at(s, ks, kw) {
                let ak = spec_skip_identifier(s, ks + kw.len());
                let ep = spec_skip_whitespace(s, ak);
                if match_at(s, ep, tokens::spec_directive_close()) {
                    Some(ep + 2)
                } else {
                    proof {
                        lemma_find_from_bounds(s, pos, tokens::spec_directive_open());
                    }
                    spec_find_named_block_end(s, bs + 2, kw)
                }
            } else {
                proof {
                    lemma_find_from_bounds(s, pos, tokens::spec_directive_open());
                }
                spec_find_named_block_end(s, bs + 2, kw)
            }
        },
    }
}

pub proof fn lemma_find_named_block_end_bounds(s: Seq<u8>, pos: int, kw: Seq<u8>)
    requires
        0 <= pos <= s.len(),
    ensures
        spec_find_named_block_end(s, pos, kw) matches Some(e) ==> pos < e <= s.len(),
    decreases s.len() - pos,
{
    match spec_find_from(s, pos, tokens::spec_directive_open()) {
        None => {},
        Some(bs) => {
            lemma_find_from_bounds(s, pos, tokens::spec_directive_open());
            let ks = spec_skip_whitespace(s, bs + 2);
            lemma_skip_whitespace_bounds(s, bs + 2);
            if match_at(s, ks, kw) {
                let ak = spec_skip_identifier(s, ks + kw.len());
                lemma_skip_identifier_bounds(s, ks + kw.len());
                let ep = spec_skip_whitespace(s, ak);
                lemma_skip_whitespace_bounds(s, ak);
                if !match_at(s, ep, tokens::spec_directive_close()) {
                    lemma_find_named_block_end_bounds(s, bs + 2, kw);
                }
            } else {
                lemma_find_named_block_end_bounds(s, bs + 2, kw);
            }
        },
    }
}

fn find_named_block_end(s: &[u8], search_start: usize, kw: &[u8]) -> (r: Option<usize>)
    requires
        search_start <= s@.len(),
    ensures
        match r {
            Some(e) => search_start < e <= s@.len() && Some(e as int) == spec_find_named_block_end(
                s@,
                search_start as int,
                kw@,
            ),
            None => spec_find_named_block_end(s@, search_start as int, kw@) is None,
        },
{
    let open = tokens::directive_open();
    let close = tokens::directive_close();
    let mut pos: usize = search_start;
    loop
        invariant_except_break
            search_start <= pos <= s@.len(),
            spec_find_named_block_end(s@, search_start as int, kw@) == spec_find_named_block_end(
                s@,
                pos as int,
                kw@,
            ),
            open@ == tokens::spec_directive_open(),
            close@ == tokens::spec_directive_close(),
        ensures
            match spec_find_named_block_end(s@, search_start as int, kw@) {
                Some(e) => search_start < e <= s@.len(),
                None => true,
            },
        decreases s@.len() - pos,
    {
        let bs = match find_from(s, pos, open.as_slice()) {
            None => {
                proof {
                    lemma_find_named_block_end_bounds(s@, search_start as int, kw@);
                }
                return None;
            },
            Some(b) => b,
        };
        assert(bs + 2 <= s.len());
        let ks = skip_whitespace(s, bs + 2);
        if starts_with_at(s, ks, kw) {
            assert(ks + kw@.len() <= s.len());
            let ak = skip_identifier(s, ks + kw.len());
            let ep = skip_whitespace(s, ak);
            if starts_with_at(s, ep, close.as_slice()) {
                proof {
                    lemma_find_named_block_end_bounds(s@, search_start as int, kw@);
                }
                return Some(ep + 2);
            }
        }
        pos = bs + 2;
    }
}

/// End of the ignorable region that begins at `start`, if one does: a
/// verbatim block, a comment block, a plain directive block, a comment
/// delimiter pair or an expression delimiter pair.
pub open spec fn spec_match_ignorable(s: Seq<u8>, start: int) -> Option<int> {
    if match_at(s, start, tokens::spec_directive_open()) {
        let after = spec_skip_whitespace(s, start + 2);
        if match_at(s, after, tokens::spec_kw_verbatim()) {
            let ss = spec_skip_identifier(s, after + tokens::spec_kw_verbatim().len());
            spec_find_named_block_end(s, ss, tokens::spec_kw_end_verbatim())
        } else if match_at(s, after, tokens::spec_kw_comment()) {
            let ss = spec_skip_identifier(s, after + tokens::spec_kw_comment().len());
            spec_find_named_block_end(s, ss, tokens::spec_kw_end_comment())
        } else {
            match spec_find_from(s, start, tokens::spec_directive_close()) {
                Some(j) => Some(j + 2),
                None => None,
            }
        }
    } else if match_at(s, start, tokens::spec_comment_open()) {
        match spec_find_from(s, start, tokens::spec_comment_close()) {
            Some(j) => Some(j + 2),
            None => None,
        }
    } else if match_at(s, start, tokens::spec_expr_open()) {
        match spec_find_from(s, start, tokens::spec_expr_close()) {
            Some(j) => Some(j + 2),
            None => None,
        }
    } else {
        None
    }
}

pub proof fn lemma_match_ignorable_bounds(s: Seq<u8>, start: int)
    requires
        0 <= start <= s.len(),
    ensures
        spec_match_ignorable(s, start) matches Some(e) ==> start < e <= s.len(),
{
    if match_at(s, start, tokens::spec_directive_open()) {
        let after = spec_skip_whitespace(s, start + 2);
        lemma_skip_whitespace_bounds(s, start + 2);
        if match_at(s, after, tokens::spec_kw_verbatim()) {
            lemma_skip_identifier_bounds(s, after + tokens::spec_kw_verbatim().len());
            lemma_find_named_block_end_bounds(
                s,
                spec_skip_identifier(s, after + tokens::spec_kw_verbatim().len()),
                tokens::spec_kw_end_verbatim(),
            );
        } else if match_at(s, after, tokens::spec_kw_comment()) {
            lemma_skip_identifier_bounds(s, after + tokens::spec_kw_comment().len());
            lemma_find_named_block_end_bounds(
                s,
                spec_skip_identifier(s, after + tokens::spec_kw_comment().len()),
                tokens::spec_kw_end_comment(),
            );
        } else {
            lemma_find_from_bounds(s, start, tokens::spec_directive_close());
        }
    } else if match_at(s, start, tokens::spec_comment_open()) {
        lemma_find_from_bounds(s, start, tokens::spec_comment_close());
    } else if match_at(s, start, tokens::spec_expr_open()) {
        lemma_find_from_bounds(s, start, tokens::spec_expr_close());
    }
}

/// Looks for an ignorable region beginning at `start`.
fn match_ignorable(s: &[u8], start: usize) -> (r: Option<usize>)
    requires
        start <= s@.len(),
    ensures
        match r {
            Some(e) => start < e <= s@.len() && Some(e as int) == spec_match_ignorable(
                s@,
                start as int,
            ),
            None => spec_match_ignorable(s@, start as int) is None,
        },
{
    proof {
        lemma_match_ignorable_bounds(s@, start as int);
    }
    let d_open = tokens::directive_open();
    if starts_with_at(s, start, d_open.as_slice()) {
        assert(start + 2 <= s.len());
        let after = skip_whitespace(s, start + 2);
        let kw_verbatim = tokens::kw_verbatim();
        let kw_comment = tokens::kw_comment();
        if starts_with_at(s, after, kw_verbatim.as_slice()) {
            let ss = skip_identifier(s, after + kw_verbatim.len());
            let kw_end = tokens::kw_end_verbatim();
            find_named_block_end(s, ss, kw_end.as_slice())
        } else if starts_with_at(s, after, kw_comment.as_slice()) {
            let ss = skip_identifier(s, after + kw_comment.len());
            let kw_end = tokens::kw_end_comment();
            find_named_block_end(s, ss, kw_end.as_slice())
        } else {
            let d_close = tokens::directive_close();
            match find_from(s, start, d_close.as_slice()) {
                Some(j) => {
                    assert(j + 2 <= s.len());
                    Some(j + 2)
                },
                None => None,
            }
        }
    } else {
        let c_open = tokens::comment_open();
        let e_open = tokens::expr_open();
        if starts_with_at(s, start, c_open.as_slice()) {
            let c_close = tokens::comment_close();
            match find_from(s, start, c_close.as_slice()) {
                Some(j) => {
                    assert(j + 2 <= s.len());
                    Some(j + 2)
                },
                None => None,
            }
        } else if starts_with_at(s, start, e_open.as_slice()) {
            let e_close = tokens::expr_close();
            match find_from(s, start, e_close.as_slice()) {
                Some(j) => {
                    assert(j + 2 <= s.len());
                    Some(j + 2)
                },
                None => None,
            }
        } else {
            None
        }
    }
}

/// The text with every ignorable region replaced by its placeholder, paired
/// with the regions in the order they were found; `k` numbers the next
/// placeholder.
pub open spec fn spec_exclude(s: Seq<u8>, i: int, k: nat) -> (Seq<u8>, Seq<SpecIgnorable>)
    decreases s.len() - i,
    when 0 <= i <= s.len()
{
    if i >= s.len() {
        (Seq::empty(), Seq::empty())
    } else {
        match spec_match_ignorable(s, i) {
            Some(end) => {
                proof {
                    lemma_match_ignorable_bounds(s, i);
                }
                let ph = spec_placeholder(k);
                let rest = spec_exclude(s, end, k + 1);
                (
                    ph + rest.0,
                    seq![SpecIgnorable { placeholder: ph, content: s.subrange(i, end) }] + rest.1,
                )
            },
            None => {
                let rest = spec_exclude(s, i + 1, k);
                (seq![s[i]] + rest.0, rest.1)
            },
        }
    }
}

/// Scans the raw input once and pulls every ignorable region out, leaving a
/// placeholder where each one stood.
pub fn exclude_ignorables(s: &[u8]) -> (r: (Vec<u8>, Vec<Ignorable>))
    ensures
        r.0@ == spec_exclude(s@, 0, 0).0,
        igs_view(r.1@) == spec_exclude(s@, 0, 0).1,
{
    let mut output: Vec<u8> = Vec::new();
    let mut ignorables: Vec<Ignorable> = Vec::new();
    let mut index: usize = 0;
    while index < s.len()
        invariant
            0 <= index <= s@.len(),
            spec_exclude(s@, 0, 0).0 == output@ + spec_exclude(
                s@,
                index as int,
                ignorables@.len() as nat,
            ).0,
            spec_exclude(s@, 0, 0).1 == igs_view(ignorables@) + spec_exclude(
                s@,
                index as int,
                ignorables@.len() as nat,
            ).1,
        decreases s@.len() - index,
    {
        let ghost prev = index as int;
        let ghost k = ignorables@.len() as nat;
        match match_ignorable(s, index) {
            Some(end) => {
                let ph = placeholder(ignorables.len());
                let content = copy_range(s, index, end);
                crate::scan::append_bytes(&mut output, ph.as_slice());
                ignorables.push(Ignorable { placeholder: ph, content });
                index = end;
                proof {
                    let step = spec_exclude(s@, prev, k);
                    let rest = spec_exclude(s@, index as int, ignorables@.len() as nat);
                    assert(step.0 =~= spec_placeholder(k) + rest.0);
                    assert(step.1 =~= seq![
                        SpecIgnorable {
                            placeholder: spec_placeholder(k),
                            content: s@.subrange(prev, index as int),
                        },
                    ] + rest.1);
                    assert(igs_view(ignorables@) =~= igs_view(ignorables@.drop_last()) + seq![
                        ignorables@.last()@,
                    ]);
                    assert(spec_exclude(s@, 0, 0).0 =~= output@ + rest.0);
                    assert(spec_exclude(s@, 0, 0).1 =~= igs_view(ignorables@) + rest.1);
                }
            },
            None => {
                output.push(s[index]);
                index += 1;
                proof {
                    let rest = spec_exclude(s@, index as int, k);
                    assert(spec_exclude(s@, prev, k).0 =~= seq![s@[prev]] + rest.0);
                    assert(spec_exclude(s@, prev, k).1 =~= rest.1);
                    assert(spec_exclude(s@, 0, 0).0 =~= output@ + rest.0);
                }
            },
        }
    }
    proof {
        assert(spec_exclude(s@, index as int, ignorables@.len() as nat).0 =~= Seq::<u8>::empty());
        assert(spec_exclude(s@, index as int, ignorables@.len() as nat).1 =~= Seq::<
            SpecIgnorable,
        >::empty());
        assert(output@ + Seq::<u8>::empty() =~= output@);
        assert(igs_view(ignorables@) + Seq::<SpecIgnorable>::empty() =~= igs_view(ignorables@));
    }
    (output, ignorables)
}

/// The verbatim body between the first `%}` and the `{% endcotton_verbatim`
/// that follows it; the whole content when either marker is missing.
pub open spec fn spec_verbatim_inner(c: Seq<u8>) -> Seq<u8> {
    match spec_find_from(c, 0, tokens::spec_directive_close()) {
        None => c,
        Some(j) => {
            let inner = j + 2;
            match spec_find_from(c, inner, tokens::spec_verbatim_block_close()) {
                None => c,
                Some(cs) => c.subrange(inner, cs),
            }
        },
    }
}

/// What an ignorable region restores to: verbatim blocks lose their
/// delimiters, everything else returns byte for byte.
pub open spec fn spec_restored_content(c: Seq<u8>) -> Seq<u8> {
    if match_at(c, spec_skip_whitespace(c, 0), tokens::spec_verbatim_block_open()) {
        spec_verbatim_inner(c)
    } else {
        c
    }
}

fn restored_content(c: &[u8]) -> (r: Vec<u8>)
    ensures
        r@ == spec_restored_content(c@),
{
    let lead = skip_whitespace(c, 0);
    let v_open = tokens::verbatim_block_open();
    if !starts_with_at(c, lead, v_open.as_slice()) {
        return copy_range(c, 0, c.len());
    }
    let d_close = tokens::directive_close();
    let j = match find_from(c, 0, d_close.as_slice()) {
        None => {
            return copy_range(c, 0, c.len());
        },
        Some(j) => j,
    };
    let inner = j + 2;
    let v_close = tokens::verbatim_block_close();
    match find_from(c, inner, v_close.as_slice()) {
        None => copy_range(c, 0, c.len()),
        Some(cs) => copy_range(c, inner, cs),
    }
}

/// The text after the ignorables from `idx` on are substituted back, each
/// placeholder replaced everywhere by its restored content.
pub open spec fn spec_restore(s: Seq<u8>, igs: Seq<SpecIgnorable>, idx: int) -> Seq<u8>
    decreases igs.len() - idx,
    when 0 <= idx <= igs.len()
{
    if idx >= igs.len() {
        s
    } else {
        spec_restore(
            spec_replace_all(s, igs[idx].placeholder, spec_restored_content(igs[idx].content)),
            igs,
            idx + 1,
        )
    }
}

/// Substitutes every placeholder back, in the order the regions were found.
pub fn restore_ignorables(html: Vec<u8>, ignorables: &Vec<Ignorable>) -> (r: Vec<u8>)
    ensures
        r@ == spec_restore(html@, igs_view(ignorables@), 0),
{
    let mut current = html;
    let mut idx: usize = 0;
    while idx < ignorables.len()
        invariant
            0 <= idx <= ignorables@.len(),
            spec_restore(current@, igs_view(ignorables@), idx as int) == spec_restore(
                html@,
                igs_view(ignorables@),
                0,
            ),
        decreases ignorables@.len() - idx,
    {
        let g = &ignorables[idx];
        let content = restored_content(g.content.as_slice());
        if g.placeholder.len() > 0 {
            current = replace_all(current.as_slice(), g.placeholder.as_slice(), content.as_slice());
        }
        idx += 1;
    }
    current
}

} // verus!
