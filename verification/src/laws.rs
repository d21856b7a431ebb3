use vstd::prelude::*;

use crate::errors::ErrorKind;
use crate::rewrite::{spec_collect, spec_process_component, spec_process_slot};
use crate::scan::{lemma_find_from_bounds, match_at, spec_find_from};
use crate::tag::{
    lemma_name_end_bounds, lemma_parse_tag_bounds, lemma_tag_close_bounds, spec_name_end,
    spec_parse_tag, SpecTagOutcome,
};
use crate::tokens;

verus! {

/// No name occurs twice in the list.
pub open spec fn distinct_deps(deps: Seq<Seq<u8>>) -> bool {
    forall|j: int, k: int| 0 <= j < k < deps.len() ==> deps[j] != deps[k]
}

/// No name of the list was already seen.
pub open spec fn fresh_deps(deps: Seq<Seq<u8>>, seen: Seq<Seq<u8>>) -> bool {
    forall|j: int| 0 <= j < deps.len() ==> !seen.contains(deps[j])
}

proof fn lemma_contains_in_prefix(seen: Seq<Seq<u8>>, add: Seq<Seq<u8>>, x: Seq<u8>)
    requires
        seen.contains(x),
    ensures
        (seen + add).contains(x),
{
    let j = choose|j: int| 0 <= j < seen.len() && seen[j] == x;
    assert((seen + add)[j] == x);
}

/// The tag scan records every dependency once: the names it returns are
/// pairwise distinct, and none of them was among those already seen.
pub proof fn lemma_collect_deps_distinct(s: Seq<u8>, i: int, seen: Seq<Seq<u8>>)
    requires
        0 <= i <= s.len(),
    ensures
        spec_collect(s, i, seen) matches Ok(p) ==> distinct_deps(p.1) && fresh_deps(p.1, seen),
    decreases s.len() - i,
{
    match spec_find_from(s, i, seq![('<' as u8)]) {
        None => {},
        Some(a) => {
            lemma_find_from_bounds(s, i, seq![('<' as u8)]);
            lemma_parse_tag_bounds(s, a);
            match spec_parse_tag(s, a) {
                SpecTagOutcome::NoMatch => {
                    lemma_collect_deps_distinct(s, a + 1, seen);
                },
                SpecTagOutcome::Failed(_) => {},
                SpecTagOutcome::Tag(t) => {
                    if match_at(t.name, 0, tokens::spec_placeholder_prefix()) || t.name
                        == tokens::spec_name_vars() {
                        lemma_collect_deps_distinct(s, t.end, seen);
                    } else if t.name == tokens::spec_name_slot() {
                        if spec_process_slot(t) is Ok {
                            lemma_collect_deps_distinct(s, t.end, seen);
                        }
                    } else {
                        match spec_process_component(t) {
                            Err(_) => {},
                            Ok((_, dep)) => {
                                let add = match dep {
                                    Some(d) => if seen.contains(d) {
                                        Seq::<Seq<u8>>::empty()
                                    } else {
                                        seq![d]
                                    },
                                    None => Seq::<Seq<u8>>::empty(),
                                };
                                lemma_collect_deps_distinct(s, t.end, seen + add);
                                match spec_collect(s, t.end, seen + add) {
                                    Err(_) => {},
                                    Ok((_, d2)) => {
                                        let whole = add + d2;
                                        assert forall|j: int, k: int|
                                            0 <= j < k < whole.len() implies whole[j]
                                            != whole[k] by {
                                            if j < add.len() {
                                                assert(whole[j] == add[0]);
                                                assert(whole[k] == d2[k - add.len()]);
                                                assert((seen + add)[seen.len() as int]
                                                    == add[0]);
                                                assert((seen + add).contains(add[0]));
                                            } else {
                                                assert(whole[j] == d2[j - add.len()]);
                                                assert(whole[k] == d2[k - add.len()]);
                                            }
                                        }
                                        assert forall|j: int|
                                            0 <= j < whole.len() implies !seen.contains(
                                            whole[j],
                                        ) by {
                                            if j < add.len() {
                                                assert(whole[j] == add[0]);
                                            } else {
                                                assert(whole[j] == d2[j - add.len()]);
                                                if seen.contains(whole[j]) {
                                                    lemma_contains_in_prefix(
                                                        seen,
                                                        add,
                                                        whole[j],
                                                    );
                                                }
                                            }
                                        }
                                    },
                                }
                            },
                        }
                    }
                },
            }
        },
    }
}

/// The dependency list of a compiled template holds each component name at
/// most once: dependency collection deduplicates while keeping first-seen
/// order.
pub proof fn lemma_dependencies_distinct(s: Seq<u8>)
    ensures
        crate::spec_process(s) matches Ok(p) ==> distinct_deps(p.1),
{
    let t1 = crate::ignorables::spec_exclude(s, 0, 0).0;
    match crate::vars::spec_scan_vars(t1, 0, false) {
        Err(_) => {},
        Ok((_, t2)) => {
            lemma_collect_deps_distinct(t2, 0, Seq::empty());
        },
    }
}

/// Quote safety: a recognized tag runs to the byte one past a real `>` of
/// the scanned text — the quote-aware scan never stops inside a quoted
/// attribute value, so a quoted `>` cannot end the tag early.
pub proof fn lemma_tag_ends_at_closing_bracket(s: Seq<u8>, start: int)
    requires
        0 <= start <= s.len(),
    ensures
        spec_parse_tag(s, start) matches SpecTagOutcome::Tag(t) ==> t.start == start && start
            < t.end <= s.len() && s[t.end - 1] == ('>' as u8),
{
    if 0 <= start < s.len() && s[start] == ('<' as u8) {
        let is_closing = start + 1 < s.len() && s[start + 1] == ('/' as u8);
        let m = if is_closing {
            start + 2
        } else {
            start + 1
        };
        if m < s.len() && match_at(s, m, tokens::spec_tag_marker()) {
            let name_start = m + 2;
            lemma_name_end_bounds(s, name_start);
            let ne = spec_name_end(s, name_start);
            if ne != name_start {
                lemma_tag_close_bounds(s, ne, None);
            }
        }
    }
}

/// A replacement pass cannot disturb a prefix in which the first byte of
/// `from` never occurs: every occurrence of `from` starts past it.
pub proof fn lemma_replace_preserves_prefix(s: Seq<u8>, from: Seq<u8>, to: Seq<u8>, p: int)
    requires
        0 <= p <= s.len(),
        forall|k: int| 0 <= k < p ==> s[k] != from.first(),
    ensures
        crate::replace::spec_replace_all(s, from, to).len() >= p,
        crate::replace::spec_replace_all(s, from, to).subrange(0, p) == s.subrange(0, p),
{
    if from.len() == 0 {
        assert(crate::replace::spec_replace_all(s, from, to).subrange(0, p) =~= s.subrange(0, p));
    } else {
        match spec_find_from(s, 0, from) {
            None => {
                assert(crate::replace::spec_replace_from(s, 0, from, to) =~= s);
                assert(crate::replace::spec_replace_all(s, from, to).subrange(0, p)
                    =~= s.subrange(0, p));
            },
            Some(j) => {
                lemma_find_from_bounds(s, 0, from);
                assert(s.subrange(j, j + from.len() as int)[0] == s[j]);
                assert(s[j] == from.first());
                assert(j >= p);
                let rest = crate::replace::spec_replace_from(s, j + from.len(), from, to);
                let whole = s.subrange(0, j) + to + rest;
                assert(crate::replace::spec_replace_from(s, 0, from, to) == whole);
                assert(whole.subrange(0, p) =~= s.subrange(0, p));
            },
        }
    }
}

/// Every placeholder token begins with an underscore.
pub proof fn lemma_placeholder_starts_underscore(k: nat)
    ensures
        crate::ignorables::spec_placeholder(k).len() > 0,
        crate::ignorables::spec_placeholder(k).first() == ('_' as u8),
{
    assert(tokens::spec_placeholder_prefix()[0] == ('_' as u8));
    assert(crate::ignorables::spec_placeholder(k)[0] == tokens::spec_placeholder_prefix()[0]);
}

/// Every region the scanner excludes is remembered under a placeholder that
/// begins with an underscore.
pub proof fn lemma_exclude_placeholders(s: Seq<u8>, i: int, k: nat)
    requires
        0 <= i <= s.len(),
    ensures
        forall|idx: int|
            0 <= idx < crate::ignorables::spec_exclude(s, i, k).1.len()
                ==> (#[trigger] crate::ignorables::spec_exclude(s, i, k).1[idx]).placeholder.len()
                > 0 && crate::ignorables::spec_exclude(s, i, k).1[idx].placeholder.first() == (
            '_' as u8),
    decreases s.len() - i,
{
    if i < s.len() {
        match crate::ignorables::spec_match_ignorable(s, i) {
            Some(end) => {
                crate::ignorables::lemma_match_ignorable_bounds(s, i);
                lemma_placeholder_starts_underscore(k);
                lemma_exclude_placeholders(s, end, k + 1);
                let whole = crate::ignorables::spec_exclude(s, i, k).1;
                let sub = crate::ignorables::spec_exclude(s, end, k + 1).1;
                assert forall|idx: int|
                    0 <= idx < whole.len() implies (#[trigger] whole[idx]).placeholder.len() > 0
                    && whole[idx].placeholder.first() == ('_' as u8) by {
                    if idx == 0 {
                        assert(whole[0].placeholder == crate::ignorables::spec_placeholder(k));
                    } else {
                        assert(whole[idx] == sub[idx - 1]);
                    }
                }
            },
            None => {
                lemma_exclude_placeholders(s, i + 1, k);
                assert(crate::ignorables::spec_exclude(s, i, k).1 == crate::ignorables::spec_exclude(
                    s,
                    i + 1,
                    k,
                ).1);
            },
        }
    }
}

/// Restoration cannot disturb a prefix free of underscores: each pass
/// substitutes a placeholder, and placeholders begin with one.
pub proof fn lemma_restore_preserves_prefix(
    s: Seq<u8>,
    igs: Seq<crate::ignorables::SpecIgnorable>,
    idx: int,
    p: int,
)
    requires
        0 <= idx <= igs.len(),
        0 <= p <= s.len(),
        forall|k: int| 0 <= k < p ==> s[k] != ('_' as u8),
        forall|j: int|
            0 <= j < igs.len() ==> (#[trigger] igs[j]).placeholder.len() > 0
                && igs[j].placeholder.first() == ('_' as u8),
    ensures
        crate::ignorables::spec_restore(s, igs, idx).len() >= p,
        crate::ignorables::spec_restore(s, igs, idx).subrange(0, p) == s.subrange(0, p),
    decreases igs.len() - idx,
{
    if idx < igs.len() {
        let from = igs[idx].placeholder;
        let to = crate::ignorables::spec_restored_content(igs[idx].content);
        let s2 = crate::replace::spec_replace_all(s, from, to);
        lemma_replace_preserves_prefix(s, from, to, p);
        assert forall|k: int| 0 <= k < p implies s2[k] != ('_' as u8) by {
            assert(s2.subrange(0, p)[k] == s2[k]);
            assert(s.subrange(0, p)[k] == s[k]);
        }
        lemma_restore_preserves_prefix(s2, igs, idx + 1, p);
        assert(crate::ignorables::spec_restore(s2, igs, idx + 1).subrange(0, p) =~= s.subrange(
            0,
            p,
        ));
    }
}


/// A header that the declaration scan hands back always opens with the vars
/// directive opening.
pub proof fn lemma_scan_vars_header_prefix(s: Seq<u8>, i: int, hv: bool)
    requires
        0 <= i <= s.len(),
    ensures
        crate::vars::spec_scan_vars(s, i, hv) matches Ok(p) ==> (p.0 matches Some(h) ==> h.len()
            >= 8 && h.subrange(0, 8) == tokens::spec_vars_header_open()),
    decreases s.len() - i,
{
    let n1 = spec_find_from(s, i, tokens::spec_vars_open_needle());
    let n2 = spec_find_from(s, i, tokens::spec_vars_close_needle());
    match crate::vars::spec_earliest(n1, n2) {
        None => {},
        Some(a) => {
            lemma_find_from_bounds(s, i, tokens::spec_vars_open_needle());
            lemma_find_from_bounds(s, i, tokens::spec_vars_close_needle());
            lemma_parse_tag_bounds(s, a);
            match spec_parse_tag(s, a) {
                SpecTagOutcome::NoMatch => {
                    lemma_scan_vars_header_prefix(s, a + 1, hv);
                },
                SpecTagOutcome::Failed(_) => {},
                SpecTagOutcome::Tag(t) => {
                    if t.name != tokens::spec_name_vars() {
                        lemma_scan_vars_header_prefix(s, t.end, hv);
                    } else if t.is_closing || hv {
                    } else {
                        let header = tokens::spec_vars_header_open() + crate::tag::spec_trim(
                            t.attrs_repr,
                        ) + tokens::spec_padded_close();
                        assert(header.subrange(0, 8) =~= tokens::spec_vars_header_open());
                        if t.is_self_closing {
                            lemma_scan_vars_header_prefix(s, t.end, true);
                        } else {
                            match spec_find_from(s, t.end, tokens::spec_vars_close_tag()) {
                                None => {},
                                Some(c) => {
                                    lemma_find_from_bounds(s, t.end, tokens::spec_vars_close_tag());
                                    lemma_scan_vars_header_prefix(
                                        s,
                                        c + tokens::spec_vars_close_tag().len(),
                                        true,
                                    );
                                },
                            }
                        }
                    }
                },
            }
        },
    }
}

/// Single-vars enforcement, output side: when a declaration tag was taken
/// from the template, the compiled text begins with the vars directive
/// header opening.
pub proof fn lemma_vars_header_leads(s: Seq<u8>)
    ensures
        crate::spec_process(s) matches Ok(out) ==> (crate::vars::spec_scan_vars(
            crate::ignorables::spec_exclude(s, 0, 0).0,
            0,
            false,
        ) matches Ok(v) ==> (v.0 is Some ==> out.0.len() >= 8 && out.0.subrange(0, 8)
            == tokens::spec_vars_header_open())),
{
    let t1 = crate::ignorables::spec_exclude(s, 0, 0).0;
    let igs = crate::ignorables::spec_exclude(s, 0, 0).1;
    match crate::vars::spec_scan_vars(t1, 0, false) {
        Err(_) => {},
        Ok((hdr, t2)) => {
            if hdr is Some {
                match crate::rewrite::spec_collect(t2, 0, Seq::empty()) {
                    Err(_) => {},
                    Ok((reps, _)) => {
                        let h = hdr->0;
                        lemma_scan_vars_header_prefix(t1, 0, false);
                        let applied = crate::spec_apply_replacements(t2, reps, 0);
                        let full = h + applied + tokens::spec_end_vars();
                        assert(full.subrange(0, 8) =~= h.subrange(0, 8));
                        assert(full.subrange(0, 8) == tokens::spec_vars_header_open());
                        assert forall|k: int| 0 <= k < 8 implies full[k] != ('_' as u8) by {
                            assert(full[k] == tokens::spec_vars_header_open()[k]);
                        }
                        lemma_exclude_placeholders(s, 0, 0);
                        lemma_restore_preserves_prefix(full, igs, 0, 8);
                    },
                }
            }
        },
    }
}


/// The bytes a placeholder token may hold: underscore, capitals, digits.
pub open spec fn is_placeholder_byte(b: u8) -> bool {
    b == ('_' as u8) || ('A' as u8) <= b <= ('Z' as u8) || ('0' as u8) <= b <= ('9' as u8)
}

/// A placeholder token: nonempty, opening with an underscore, made of
/// underscores, capitals and digits alone.
pub open spec fn is_placeholder_token(ph: Seq<u8>) -> bool {
    ph.len() > 0 && ph.first() == ('_' as u8) && (forall|m: int|
        0 <= m < ph.len() ==> is_placeholder_byte(#[trigger] ph[m]))
}

proof fn lemma_decimal_bytes(n: nat)
    ensures
        forall|m: int|
            0 <= m < crate::scan::spec_decimal(n).len() ==> is_placeholder_byte(
                #[trigger] crate::scan::spec_decimal(n)[m],
            ),
    decreases n,
{
    if n < 10 {
        assert(crate::scan::spec_decimal(n)[0] == (48 + n) as u8);
    } else {
        lemma_decimal_bytes(n / 10);
        let d = crate::scan::spec_decimal(n / 10);
        assert forall|m: int|
            0 <= m < crate::scan::spec_decimal(n).len() implies is_placeholder_byte(
            #[trigger] crate::scan::spec_decimal(n)[m],
        ) by {
            if m < d.len() {
                assert(crate::scan::spec_decimal(n)[m] == d[m]);
            } else {
                assert(crate::scan::spec_decimal(n)[m] == (48 + n % 10) as u8);
            }
        }
    }
}

/// Placeholder tokens hold underscores, capitals and digits alone.
pub proof fn lemma_placeholder_token(k: nat)
    ensures
        is_placeholder_token(crate::ignorables::spec_placeholder(k)),
{
    lemma_decimal_bytes(k);
    let ph = crate::ignorables::spec_placeholder(k);
    let pre = tokens::spec_placeholder_prefix();
    let dec = crate::scan::spec_decimal(k);
    let suf = tokens::spec_placeholder_suffix();
    assert(ph[0] == pre[0]);
    assert forall|m: int| 0 <= m < ph.len() implies is_placeholder_byte(#[trigger] ph[m]) by {
        if m < pre.len() {
            assert(ph[m] == pre[m]);
        } else if m < pre.len() + dec.len() {
            assert(ph[m] == dec[m - pre.len()]);
        } else {
            assert(ph[m] == suf[m - pre.len() - dec.len()]);
        }
    }
}

/// Every region the scanner excludes is remembered under a placeholder
/// token.
pub proof fn lemma_exclude_placeholder_tokens(s: Seq<u8>, i: int, k: nat)
    requires
        0 <= i <= s.len(),
    ensures
        forall|idx: int|
            0 <= idx < crate::ignorables::spec_exclude(s, i, k).1.len() ==> is_placeholder_token(
                (#[trigger] crate::ignorables::spec_exclude(s, i, k).1[idx]).placeholder,
            ),
    decreases s.len() - i,
{
    if i < s.len() {
        match crate::ignorables::spec_match_ignorable(s, i) {
            Some(end) => {
                crate::ignorables::lemma_match_ignorable_bounds(s, i);
                lemma_placeholder_token(k);
                lemma_exclude_placeholder_tokens(s, end, k + 1);
                let whole = crate::ignorables::spec_exclude(s, i, k).1;
                let sub = crate::ignorables::spec_exclude(s, end, k + 1).1;
                assert forall|idx: int|
                    0 <= idx < whole.len() implies is_placeholder_token(
                    (#[trigger] whole[idx]).placeholder,
                ) by {
                    if idx == 0 {
                        assert(whole[0].placeholder == crate::ignorables::spec_placeholder(k));
                    } else {
                        assert(whole[idx] == sub[idx - 1]);
                    }
                }
            },
            None => {
                lemma_exclude_placeholder_tokens(s, i + 1, k);
                assert(crate::ignorables::spec_exclude(s, i, k).1
                    == crate::ignorables::spec_exclude(s, i + 1, k).1);
            },
        }
    }
}

/// A replacement pass cannot disturb a suffix that holds no placeholder
/// byte, when `from` is made of placeholder bytes: no occurrence can reach
/// into that suffix.
pub proof fn lemma_replace_preserves_suffix(s: Seq<u8>, from: Seq<u8>, to: Seq<u8>, i: int, q: int)
    requires
        from.len() > 0,
        0 <= q,
        0 <= i <= s.len() - q,
        forall|m: int| 0 <= m < from.len() ==> is_placeholder_byte(#[trigger] from[m]),
        forall|m: int| s.len() - q <= m < s.len() ==> !is_placeholder_byte(#[trigger] s[m]),
    ensures
        crate::replace::spec_replace_from(s, i, from, to).len() >= q,
        crate::replace::spec_replace_from(s, i, from, to).subrange(
            crate::replace::spec_replace_from(s, i, from, to).len() - q,
            crate::replace::spec_replace_from(s, i, from, to).len() as int,
        ) == s.subrange(s.len() - q, s.len() as int),
    decreases s.len() - i,
{
    let res = crate::replace::spec_replace_from(s, i, from, to);
    match spec_find_from(s, i, from) {
        None => {
            assert(res == s.subrange(i, s.len() as int));
            assert(res.subrange(res.len() - q, res.len() as int) =~= s.subrange(
                s.len() - q,
                s.len() as int,
            ));
        },
        Some(j) => {
            lemma_find_from_bounds(s, i, from);
            if j + from.len() > s.len() - q {
                let p0 = if j >= s.len() - q {
                    j
                } else {
                    s.len() - q
                };
                assert(s.subrange(j, j + from.len() as int)[p0 - j] == s[p0]);
                assert(is_placeholder_byte(s[p0]));
                assert(false);
            }
            lemma_replace_preserves_suffix(s, from, to, j + from.len(), q);
            let rest = crate::replace::spec_replace_from(s, j + from.len(), from, to);
            assert(res == s.subrange(i, j) + to + rest);
            assert(res.subrange(res.len() - q, res.len() as int) =~= rest.subrange(
                rest.len() - q,
                rest.len() as int,
            ));
        },
    }
}

/// Restoration cannot disturb a suffix free of placeholder bytes.
pub proof fn lemma_restore_preserves_suffix(
    s: Seq<u8>,
    igs: Seq<crate::ignorables::SpecIgnorable>,
    idx: int,
    q: int,
)
    requires
        0 <= idx <= igs.len(),
        0 <= q <= s.len(),
        forall|m: int| s.len() - q <= m < s.len() ==> !is_placeholder_byte(#[trigger] s[m]),
        forall|j: int| 0 <= j < igs.len() ==> is_placeholder_token((#[trigger] igs[j]).placeholder),
    ensures
        crate::ignorables::spec_restore(s, igs, idx).len() >= q,
        crate::ignorables::spec_restore(s, igs, idx).subrange(
            crate::ignorables::spec_restore(s, igs, idx).len() - q,
            crate::ignorables::spec_restore(s, igs, idx).len() as int,
        ) == s.subrange(s.len() - q, s.len() as int),
    decreases igs.len() - idx,
{
    if idx < igs.len() {
        let from = igs[idx].placeholder;
        let to = crate::ignorables::spec_restored_content(igs[idx].content);
        let s2 = crate::replace::spec_replace_all(s, from, to);
        lemma_replace_preserves_suffix(s, from, to, 0, q);
        assert(s2.subrange(s2.len() - q, s2.len() as int) == s.subrange(s.len() - q, s.len() as int));
        assert forall|m: int| s2.len() - q <= m < s2.len() implies !is_placeholder_byte(
            #[trigger] s2[m],
        ) by {
            assert(s2.subrange(s2.len() - q, s2.len() as int)[m - (s2.len() - q)] == s2[m]);
            assert(s.subrange(s.len() - q, s.len() as int)[m - (s2.len() - q)] == s[m - (s2.len()
                - q) + (s.len() - q)]);
        }
        lemma_restore_preserves_suffix(s2, igs, idx + 1, q);
        assert(crate::ignorables::spec_restore(s, igs, idx) == crate::ignorables::spec_restore(
            s2,
            igs,
            idx + 1,
        ));
    } else {
        assert(crate::ignorables::spec_restore(s, igs, idx) == s);
    }
}

/// Single-vars enforcement, terminator side: when a declaration tag was
/// taken from the template, the compiled text ends with the vars terminator
/// directive.
pub proof fn lemma_vars_terminator_ends(s: Seq<u8>)
    ensures
        crate::spec_process(s) matches Ok(out) ==> (crate::vars::spec_scan_vars(
            crate::ignorables::spec_exclude(s, 0, 0).0,
            0,
            false,
        ) matches Ok(v) ==> (v.0 is Some ==> out.0.len() >= 13 && out.0.subrange(
            out.0.len() - 13,
            out.0.len() as int,
        ) == tokens::spec_end_vars())),
{
    let t1 = crate::ignorables::spec_exclude(s, 0, 0).0;
    let igs = crate::ignorables::spec_exclude(s, 0, 0).1;
    match crate::vars::spec_scan_vars(t1, 0, false) {
        Err(_) => {},
        Ok((hdr, t2)) => {
            if hdr is Some {
                match crate::rewrite::spec_collect(t2, 0, Seq::empty()) {
                    Err(_) => {},
                    Ok((reps, _)) => {
                        let h = hdr->0;
                        let applied = crate::spec_apply_replacements(t2, reps, 0);
                        let full = h + applied + tokens::spec_end_vars();
                        assert(full.subrange(full.len() - 13, full.len() as int)
                            =~= tokens::spec_end_vars());
                        assert forall|m: int|
                            full.len() - 13 <= m < full.len() implies !is_placeholder_byte(
                            #[trigger] full[m],
                        ) by {
                            assert(full[m] == tokens::spec_end_vars()[m - (full.len() - 13)]);
                        }
                        lemma_exclude_placeholder_tokens(s, 0, 0);
                        lemma_restore_preserves_suffix(full, igs, 0, 13);
                    },
                }
            }
        },
    }
}


proof fn lemma_find_from_none(s: Seq<u8>, i: int, pat: Seq<u8>)
    requires
        0 <= i <= s.len(),
        pat.len() > 0,
        forall|k: int| i <= k < s.len() ==> s[k] != pat.first(),
    ensures
        spec_find_from(s, i, pat) is None,
    decreases s.len() - i,
{
    if match_at(s, i, pat) {
        assert(s.subrange(i, i + pat.len() as int)[0] == s[i]);
    }
    if i < s.len() {
        lemma_find_from_none(s, i + 1, pat);
    }
}

proof fn lemma_match_ignorable_none(s: Seq<u8>, i: int)
    requires
        0 <= i < s.len(),
        s[i] != ('{' as u8),
    ensures
        crate::ignorables::spec_match_ignorable(s, i) is None,
{
    if match_at(s, i, tokens::spec_directive_open()) {
        assert(s.subrange(i, i + 2)[0] == s[i]);
    }
    if match_at(s, i, tokens::spec_comment_open()) {
        assert(s.subrange(i, i + 2)[0] == s[i]);
    }
    if match_at(s, i, tokens::spec_expr_open()) {
        assert(s.subrange(i, i + 2)[0] == s[i]);
    }
}

proof fn lemma_exclude_plain(s: Seq<u8>, i: int, k: nat)
    requires
        0 <= i <= s.len(),
        forall|m: int| 0 <= m < s.len() ==> s[m] != ('{' as u8),
    ensures
        crate::ignorables::spec_exclude(s, i, k).0 == s.subrange(i, s.len() as int),
        crate::ignorables::spec_exclude(s, i, k).1 == Seq::<crate::ignorables::SpecIgnorable>::empty(),
    decreases s.len() - i,
{
    if i >= s.len() {
        assert(crate::ignorables::spec_exclude(s, i, k).0 =~= s.subrange(i, s.len() as int));
    } else {
        lemma_match_ignorable_none(s, i);
        lemma_exclude_plain(s, i + 1, k);
        assert(seq![s[i]] + s.subrange(i + 1, s.len() as int) =~= s.subrange(i, s.len() as int));
    }
}

/// Idempotence of restoration on plain text: an input that holds neither a
/// `<` nor a `{` has no marker-prefixed tag and no ignorable region, and
/// compiles to itself, with no dependencies.
pub proof fn lemma_plain_text_identity(s: Seq<u8>)
    requires
        forall|k: int| 0 <= k < s.len() ==> s[k] != ('{' as u8) && s[k] != ('<' as u8),
    ensures
        crate::spec_process(s) == Ok::<(Seq<u8>, Seq<Seq<u8>>), (ErrorKind, int)>(
            (s, Seq::empty()),
        ),
{
    lemma_exclude_plain(s, 0, 0);
    let t1 = crate::ignorables::spec_exclude(s, 0, 0).0;
    assert(t1 =~= s);
    lemma_find_from_none(s, 0, tokens::spec_vars_open_needle());
    lemma_find_from_none(s, 0, tokens::spec_vars_close_needle());
    assert(crate::vars::spec_scan_vars(s, 0, false) == Ok::<_, (ErrorKind, int)>((
        None::<Seq<u8>>,
        s.subrange(0, s.len() as int),
    )));
    let t2 = s.subrange(0, s.len() as int);
    assert(t2 =~= s);
    lemma_find_from_none(s, 0, seq![('<' as u8)]);
    assert(crate::rewrite::spec_collect(s, 0, Seq::empty()) == Ok::<_, (ErrorKind, int)>((
        Seq::<(Seq<u8>, Seq<u8>)>::empty(),
        Seq::<Seq<u8>>::empty(),
    )));
}


} // verus!
