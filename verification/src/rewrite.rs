use vstd::prelude::*;

use crate::errors::ErrorKind;
use crate::scan::{append_bytes, bytes_eq, copy_range, find_from, match_at, spec_find_from,
    starts_with_at};
use crate::tag::{
    attrs_view, lemma_parse_tag_bounds, parse_c_tag, Attribute, ParsedTag, SpecAttribute, SpecTag,
    spec_parse_tag, SpecTagOutcome,
};
use crate::tokens;

verus! {

/// The view of a dependency list.
pub open spec fn deps_view(deps: Seq<Vec<u8>>) -> Seq<Seq<u8>> {
    deps.map_values(|d: Vec<u8>| d@)
}

/// The view of a replacement list: each original tag slice paired with its
/// directive-form rewrite.
pub open spec fn reps_view(reps: Seq<(Vec<u8>, Vec<u8>)>) -> Seq<(Seq<u8>, Seq<u8>)> {
    reps.map_values(|p: (Vec<u8>, Vec<u8>)| (p.0@, p.1@))
}

/// The value of the first attribute that carries `key` with a value; a
/// valueless occurrence of `key` is passed over.
pub open spec fn spec_find_valued(attrs: Seq<SpecAttribute>, key: Seq<u8>) -> Option<Seq<u8>>
    decreases attrs.len(),
{
    if attrs.len() == 0 {
        None
    } else if attrs[0].key == key && attrs[0].value is Some {
        attrs[0].value
    } else {
        spec_find_valued(attrs.drop_first(), key)
    }
}

/// The value slot of the first attribute that carries `key`, valued or not;
/// `None` when no attribute carries `key`.
pub open spec fn spec_find_attr_value(attrs: Seq<SpecAttribute>, key: Seq<u8>) -> Option<
    Option<Seq<u8>>,
>
    decreases attrs.len(),
{
    if attrs.len() == 0 {
        None
    } else if attrs[0].key == key {
        Some(attrs[0].value)
    } else {
        spec_find_attr_value(attrs.drop_first(), key)
    }
}

fn find_valued(attrs: &Vec<Attribute>, key: &[u8]) -> (r: Option<Vec<u8>>)
    ensures
        match r {
            Some(v) => spec_find_valued(attrs_view(attrs@), key@) == Some(v@),
            None => spec_find_valued(attrs_view(attrs@), key@) is None,
        },
{
    let mut i: usize = 0;
    proof {
        assert(attrs_view(attrs@).skip(0) =~= attrs_view(attrs@));
    }
    while i < attrs.len()
        invariant
            0 <= i <= attrs@.len(),
            spec_find_valued(attrs_view(attrs@), key@) == spec_find_valued(
                attrs_view(attrs@).skip(i as int),
                key@,
            ),
        decreases attrs@.len() - i,
    {
        proof {
            assert(attrs_view(attrs@).skip(i as int).drop_first() =~= attrs_view(attrs@).skip(
                i + 1,
            ));
            assert(attrs_view(attrs@).skip(i as int)[0] == attrs@[i as int]@);
        }
        if bytes_eq(attrs[i].key.as_slice(), key) {
            match &attrs[i].value {
                Some(v) => {
                    return Some(copy_range(v.as_slice(), 0, v.len()));
                },
                None => {},
            }
        }
        i += 1;
    }
    proof {
        assert(attrs_view(attrs@).skip(i as int) =~= Seq::<SpecAttribute>::empty());
    }
    None
}

fn find_attr_value(attrs: &Vec<Attribute>, key: &[u8]) -> (r: Option<Option<Vec<u8>>>)
    ensures
        match r {
            Some(Some(v)) => spec_find_attr_value(attrs_view(attrs@), key@) == Some(Some(v@)),
            Some(None) => spec_find_attr_value(attrs_view(attrs@), key@) == Some(
                None::<Seq<u8>>,
            ),
            None => spec_find_attr_value(attrs_view(attrs@), key@) is None,
        },
{
    let mut i: usize = 0;
    proof {
        assert(attrs_view(attrs@).skip(0) =~= attrs_view(attrs@));
    }
    while i < attrs.len()
        invariant
            0 <= i <= attrs@.len(),
            spec_find_attr_value(attrs_view(attrs@), key@) == spec_find_attr_value(
                attrs_view(attrs@).skip(i as int),
                key@,
            ),
        decreases attrs@.len() - i,
    {
        proof {
            assert(attrs_view(attrs@).skip(i as int).drop_first() =~= attrs_view(attrs@).skip(
                i + 1,
            ));
            assert(attrs_view(attrs@).skip(i as int)[0] == attrs@[i as int]@);
        }
        if bytes_eq(attrs[i].key.as_slice(), key) {
            match &attrs[i].value {
                Some(v) => {
                    return Some(Some(copy_range(v.as_slice(), 0, v.len())));
                },
                None => {
                    return Some(None);
                },
            }
        }
        i += 1;
    }
    proof {
        assert(attrs_view(attrs@).skip(i as int) =~= Seq::<SpecAttribute>::empty());
    }
    None
}

/// True when an attribute value must be moved out of line: it holds
/// expression or directive delimiters, an `=`, or a placeholder token.
pub open spec fn spec_should_extract(v: Seq<u8>) -> bool {
    spec_find_from(v, 0, tokens::spec_expr_open()) is Some || spec_find_from(
        v,
        0,
        tokens::spec_directive_open(),
    ) is Some || spec_find_from(v, 0, seq![('=' as u8)]) is Some || spec_find_from(
        v,
        0,
        tokens::spec_placeholder_prefix(),
    ) is Some
}

fn should_extract(v: &[u8]) -> (r: bool)
    ensures
        r == spec_should_extract(v@),
{
    let expr = tokens::expr_open();
    if find_from(v, 0, expr.as_slice()).is_some() {
        return true;
    }
    let dir = tokens::directive_open();
    if find_from(v, 0, dir.as_slice()).is_some() {
        return true;
    }
    let mut eq: Vec<u8> = Vec::new();
    eq.push('=' as u8);
    proof {
        assert(eq@ =~= seq![('=' as u8)]);
    }
    if find_from(v, 0, eq.as_slice()).is_some() {
        return true;
    }
    let ph = tokens::placeholder_prefix();
    find_from(v, 0, ph.as_slice()).is_some()
}

/// The inline attribute pieces and the out-of-line extracted text that the
/// attribute list serializes to, in attribute order.
pub open spec fn spec_attr_pieces(attrs: Seq<SpecAttribute>) -> (Seq<Seq<u8>>, Seq<u8>)
    decreases attrs.len(),
{
    if attrs.len() == 0 {
        (Seq::empty(), Seq::empty())
    } else {
        let rest = spec_attr_pieces(attrs.drop_first());
        let a = attrs[0];
        match a.value {
            None => (seq![a.key] + rest.0, rest.1),
            Some(v) => {
                if spec_should_extract(v) {
                    (
                        rest.0,
                        tokens::spec_attr_open() + a.key + tokens::spec_padded_close() + v
                            + tokens::spec_end_attr() + rest.1,
                    )
                } else {
                    (
                        seq![a.key + seq![('=' as u8), ('"' as u8)] + v + seq![('"' as u8)]]
                            + rest.0,
                        rest.1,
                    )
                }
            },
        }
    }
}

/// The pieces joined with single spaces.
pub open spec fn spec_join_spaced(pieces: Seq<Seq<u8>>) -> Seq<u8>
    decreases pieces.len(),
{
    if pieces.len() == 0 {
        Seq::empty()
    } else if pieces.len() == 1 {
        pieces[0]
    } else {
        pieces[0] + seq![(' ' as u8)] + spec_join_spaced(pieces.drop_first())
    }
}

/// The inline attribute text (leading space included when any piece exists)
/// and the extracted out-of-line text.
pub open spec fn spec_attr_strings(attrs: Seq<SpecAttribute>) -> (Seq<u8>, Seq<u8>) {
    let (pieces, extracted) = spec_attr_pieces(attrs);
    (
        if pieces.len() == 0 {
            Seq::empty()
        } else {
            seq![(' ' as u8)] + spec_join_spaced(pieces)
        },
        extracted,
    )
}

/// Serializes an attribute list: bare keys and quotable values inline,
/// template-syntax values extracted into attr directives.
pub fn build_attribute_strings(attrs: &Vec<Attribute>) -> (r: (Vec<u8>, Vec<u8>))
    ensures
        r.0@ == spec_attr_strings(attrs_view(attrs@)).0,
        r.1@ == spec_attr_strings(attrs_view(attrs@)).1,
{
    let mut pieces: Vec<Vec<u8>> = Vec::new();
    let mut extracted: Vec<u8> = Vec::new();
    let mut i: usize = 0;
    proof {
        assert(attrs_view(attrs@).skip(0) =~= attrs_view(attrs@));
        assert(deps_view(pieces@) + spec_attr_pieces(attrs_view(attrs@)).0 =~= spec_attr_pieces(
            attrs_view(attrs@),
        ).0);
        assert(extracted@ + spec_attr_pieces(attrs_view(attrs@)).1 =~= spec_attr_pieces(
            attrs_view(attrs@),
        ).1);
    }
    while i < attrs.len()
        invariant
            0 <= i <= attrs@.len(),
            spec_attr_pieces(attrs_view(attrs@)).0 == deps_view(pieces@) + spec_attr_pieces(
                attrs_view(attrs@).skip(i as int),
            ).0,
            spec_attr_pieces(attrs_view(attrs@)).1 == extracted@ + spec_attr_pieces(
                attrs_view(attrs@).skip(i as int),
            ).1,
        decreases attrs@.len() - i,
    {
        proof {
            assert(attrs_view(attrs@).skip(i as int).drop_first() =~= attrs_view(attrs@).skip(
                i + 1,
            ));
            assert(attrs_view(attrs@).skip(i as int)[0] == attrs@[i as int]@);
        }
        let ghost tail0 = spec_attr_pieces(attrs_view(attrs@).skip(i as int));
        let ghost tail1 = spec_attr_pieces(attrs_view(attrs@).skip(i + 1));
        let a = &attrs[i];
        match &a.value {
            None => {
                let piece = copy_range(a.key.as_slice(), 0, a.key.len());
                proof {
                    assert(piece@ =~= a@.key);
                }
                pieces.push(piece);
                proof {
                    assert(deps_view(pieces@) =~= deps_view(pieces@.drop_last()) + seq![
                        pieces@.last()@,
                    ]);
                    assert(deps_view(pieces@.drop_last()) + (seq![a@.key] + tail1.0) =~= deps_view(
                        pieces@,
                    ) + tail1.0);
                }
            },
            Some(v) => {
                if should_extract(v.as_slice()) {
                    let mut ex = tokens::attr_open();
                    append_bytes(&mut ex, a.key.as_slice());
                    let pc = tokens::padded_close();
                    append_bytes(&mut ex, pc.as_slice());
                    append_bytes(&mut ex, v.as_slice());
                    let ea = tokens::end_attr();
                    append_bytes(&mut ex, ea.as_slice());
                    append_bytes(&mut extracted, ex.as_slice());
                    proof {
                        assert(extracted@ + (tokens::spec_attr_open() + a@.key
                            + tokens::spec_padded_close() + a@.value->0 + tokens::spec_end_attr()
                            + tail1.1) =~= (extracted@ + ex@) + tail1.1);
                    }
                } else {
                    let mut piece = copy_range(a.key.as_slice(), 0, a.key.len());
                    piece.push('=' as u8);
                    piece.push('"' as u8);
                    append_bytes(&mut piece, v.as_slice());
                    piece.push('"' as u8);
                    proof {
                        assert(piece@ =~= a@.key + seq![('=' as u8), ('"' as u8)] + a@.value->0
                            + seq![('"' as u8)]);
                    }
                    pieces.push(piece);
                    proof {
                        assert(deps_view(pieces@) =~= deps_view(pieces@.drop_last()) + seq![
                            pieces@.last()@,
                        ]);
                        assert(deps_view(pieces@.drop_last()) + (seq![pieces@.last()@] + tail1.0)
                            =~= deps_view(pieces@) + tail1.0);
                    }
                }
            },
        }
        i += 1;
    }
    proof {
        assert(attrs_view(attrs@).skip(i as int) =~= Seq::<SpecAttribute>::empty());
        assert(deps_view(pieces@) + Seq::<Seq<u8>>::empty() =~= deps_view(pieces@));
        assert(extracted@ + Seq::<u8>::empty() =~= extracted@);
    }
    let mut attrs_string: Vec<u8> = Vec::new();
    if pieces.len() > 0 {
        attrs_string.push(' ' as u8);
        let mut j: usize = 0;
        proof {
            assert(attrs_string@ =~= seq![(' ' as u8)]);
            assert(deps_view(pieces@).skip(0) =~= deps_view(pieces@));
        }
        while j < pieces.len()
            invariant
                0 <= j < pieces@.len() || (j == pieces@.len() && pieces@.len() > 0),
                pieces@.len() > 0,
                seq![(' ' as u8)] + spec_join_spaced(deps_view(pieces@)) == attrs_string@
                    + spec_join_spaced(deps_view(pieces@).skip(j as int)),
            decreases pieces@.len() - j,
        {
            proof {
                assert(deps_view(pieces@).skip(j as int).drop_first() =~= deps_view(pieces@).skip(
                    j + 1,
                ));
                assert(deps_view(pieces@).skip(j as int)[0] == pieces@[j as int]@);
            }
            append_bytes(&mut attrs_string, pieces[j].as_slice());
            if j + 1 < pieces.len() {
                attrs_string.push(' ' as u8);
            }
            proof {
                assert(deps_view(pieces@).skip(j as int).len() == pieces@.len() - j);
            }
            j += 1;
        }
        proof {
            assert(spec_join_spaced(deps_view(pieces@).skip(pieces@.len() as int))
                =~= Seq::<u8>::empty());
            assert(attrs_string@ + Seq::<u8>::empty() =~= attrs_string@);
        }
    }
    (attrs_string, extracted)
}

/// The directive rewrite of a slot tag: a closing slot tag becomes the fixed
/// slot-end directive; an opening one must carry a valued `name` attribute
/// and opens that slot by name, else it fails.
pub open spec fn spec_process_slot(t: SpecTag) -> Result<Seq<u8>, ErrorKind> {
    if t.is_closing {
        Ok(tokens::spec_end_slot())
    } else {
        match spec_find_valued(t.attributes, tokens::spec_attr_key_name()) {
            Some(v) => Ok(tokens::spec_slot_open() + v + tokens::spec_padded_close()),
            None => Err(ErrorKind::SlotMissingName),
        }
    }
}

/// Rewrites one slot tag.
pub fn process_slot(tag: &ParsedTag) -> (r: Result<Vec<u8>, ErrorKind>)
    ensures
        match r {
            Ok(rep) => spec_process_slot(tag@) == Ok::<Seq<u8>, ErrorKind>(rep@),
            Err(k) => spec_process_slot(tag@) == Err::<Seq<u8>, ErrorKind>(k),
        },
{
    if tag.is_closing {
        return Ok(tokens::end_slot());
    }
    let key = tokens::attr_key_name();
    match find_valued(&tag.attributes, key.as_slice()) {
        Some(v) => {
            let mut rep = tokens::slot_open();
            append_bytes(&mut rep, v.as_slice());
            let pc = tokens::padded_close();
            append_bytes(&mut rep, pc.as_slice());
            Ok(rep)
        },
        None => Err(ErrorKind::SlotMissingName),
    }
}

/// The directive rewrite of a component tag together with the dependency it
/// records.
///
/// A closing tag becomes the fixed component-end directive. An opening tag
/// becomes an opening directive carrying the component name and the inline
/// attribute text, then the extracted attribute directives, then the end
/// directive when self-closing. The dynamic component records its valued
/// `is` attribute (none when that value is a placeholder) and fails without
/// one; an ordinary component records its own name; slot, declaration and
/// placeholder names record nothing.
pub open spec fn spec_process_component(t: SpecTag) -> Result<
    (Seq<u8>, Option<Seq<u8>>),
    ErrorKind,
> {
    if t.is_closing {
        Ok((tokens::spec_end_comp(), None))
    } else {
        let (astr, extracted) = spec_attr_strings(t.attributes);
        let opening = tokens::spec_comp_open() + t.name + astr + tokens::spec_padded_close()
            + extracted;
        let rep = if t.is_self_closing {
            opening + tokens::spec_end_comp()
        } else {
            opening
        };
        if t.name == tokens::spec_name_component() {
            match spec_find_attr_value(t.attributes, tokens::spec_attr_key_is()) {
                Some(Some(v)) => {
                    if match_at(v, 0, tokens::spec_placeholder_prefix()) {
                        Ok((rep, None))
                    } else {
                        Ok((rep, Some(v)))
                    }
                },
                Some(None) => Err(ErrorKind::ComponentMissingIs),
                None => Err(ErrorKind::ComponentMissingIs),
            }
        } else if t.name != tokens::spec_name_slot() && t.name != tokens::spec_name_vars()
            && !match_at(t.name, 0, tokens::spec_placeholder_prefix()) {
            Ok((rep, Some(t.name)))
        } else {
            Ok((rep, None))
        }
    }
}

/// Rewrites one component tag and names the dependency it records.
pub fn process_component(tag: &ParsedTag) -> (r: Result<(Vec<u8>, Option<Vec<u8>>), ErrorKind>)
    ensures
        match r {
            Ok((rep, dep)) => spec_process_component(tag@) matches Ok(p) && p.0 == rep@ && p.1
                == (match dep {
                Some(d) => Some(d@),
                None => None::<Seq<u8>>,
            }),
            Err(k) => spec_process_component(tag@) == Err::<(Seq<u8>, Option<Seq<u8>>), ErrorKind>(
                k,
            ),
        },
{
    if tag.is_closing {
        return Ok((tokens::end_comp(), None));
    }
    let (astr, extracted) = build_attribute_strings(&tag.attributes);
    let mut rep = tokens::comp_open();
    append_bytes(&mut rep, tag.name.as_slice());
    append_bytes(&mut rep, astr.as_slice());
    let pc = tokens::padded_close();
    append_bytes(&mut rep, pc.as_slice());
    append_bytes(&mut rep, extracted.as_slice());
    if tag.is_self_closing {
        let ec = tokens::end_comp();
        append_bytes(&mut rep, ec.as_slice());
    }
    let comp = tokens::name_component();
    let ph = tokens::placeholder_prefix();
    if bytes_eq(tag.name.as_slice(), comp.as_slice()) {
        let key = tokens::attr_key_is();
        match find_attr_value(&tag.attributes, key.as_slice()) {
            Some(Some(v)) => {
                if starts_with_at(v.as_slice(), 0, ph.as_slice()) {
                    Ok((rep, None))
                } else {
                    Ok((rep, Some(v)))
                }
            },
            Some(None) => Err(ErrorKind::ComponentMissingIs),
            None => Err(ErrorKind::ComponentMissingIs),
        }
    } else {
        let slot = tokens::name_slot();
        let vars = tokens::name_vars();
        if !bytes_eq(tag.name.as_slice(), slot.as_slice()) && !bytes_eq(
            tag.name.as_slice(),
            vars.as_slice(),
        ) && !starts_with_at(tag.name.as_slice(), 0, ph.as_slice()) {
            let dep = copy_range(tag.name.as_slice(), 0, tag.name.len());
            Ok((rep, Some(dep)))
        } else {
            Ok((rep, None))
        }
    }
}

/// True when `x` is one of the collected dependencies.
fn deps_contains(deps: &Vec<Vec<u8>>, x: &[u8]) -> (b: bool)
    ensures
        b == deps_view(deps@).contains(x@),
{
    let mut i: usize = 0;
    while i < deps.len()
        invariant
            0 <= i <= deps@.len(),
            forall|k: int| 0 <= k < i ==> deps_view(deps@)[k] != x@,
        decreases deps@.len() - i,
    {
        if bytes_eq(deps[i].as_slice(), x) {
            assert(deps_view(deps@)[i as int] == x@);
            return true;
        }
        i += 1;
    }
    assert(forall|k: int| 0 <= k < deps_view(deps@).len() ==> deps_view(deps@)[k] != x@);
    false
}

/// The replacements and dependencies that the scan from `i` on yields, given
/// the dependency names already `seen`. Each recognized tag contributes its
/// rewrite; placeholder and declaration names are stepped over; dependency
/// names are recorded once, in first-seen order.
pub open spec fn spec_collect(s: Seq<u8>, i: int, seen: Seq<Seq<u8>>) -> Result<
    (Seq<(Seq<u8>, Seq<u8>)>, Seq<Seq<u8>>),
    (ErrorKind, int),
>
    decreases s.len() - i,
    when 0 <= i <= s.len()
{
    match spec_find_from(s, i, seq![('<' as u8)]) {
        None => Ok((Seq::empty(), Seq::empty())),
        Some(a) => {
            proof {
                crate::scan::lemma_find_from_bounds(s, i, seq![('<' as u8)]);
                lemma_parse_tag_bounds(s, a);
            }
            match spec_parse_tag(s, a) {
                SpecTagOutcome::NoMatch => spec_collect(s, a + 1, seen),
                SpecTagOutcome::Failed(k) => Err((k, a)),
                SpecTagOutcome::Tag(t) => {
                    if match_at(t.name, 0, tokens::spec_placeholder_prefix()) || t.name
                        == tokens::spec_name_vars() {
                        spec_collect(s, t.end, seen)
                    } else if t.name == tokens::spec_name_slot() {
                        match spec_process_slot(t) {
                            Err(k) => Err((k, t.start)),
                            Ok(rep) => match spec_collect(s, t.end, seen) {
                                Err(e) => Err(e),
                                Ok((reps, deps)) => Ok((seq![(t.original, rep)] + reps, deps)),
                            },
                        }
                    } else {
                        match spec_process_component(t) {
                            Err(k) => Err((k, t.start)),
                            Ok((rep, dep)) => {
                                let add = match dep {
                                    Some(d) => if seen.contains(d) {
                                        Seq::<Seq<u8>>::empty()
                                    } else {
                                        seq![d]
                                    },
                                    None => Seq::<Seq<u8>>::empty(),
                                };
                                match spec_collect(s, t.end, seen + add) {
                                    Err(e) => Err(e),
                                    Ok((reps, deps)) => Ok(
                                        (seq![(t.original, rep)] + reps, add + deps),
                                    ),
                                }
                            },
                        }
                    }
                },
            }
        },
    }
}

/// How a finished prefix combines with what the rest of the scan yields.
pub open spec fn spec_collect_merge(
    reps0: Seq<(Seq<u8>, Seq<u8>)>,
    deps0: Seq<Seq<u8>>,
    rest: Result<(Seq<(Seq<u8>, Seq<u8>)>, Seq<Seq<u8>>), (ErrorKind, int)>,
) -> Result<(Seq<(Seq<u8>, Seq<u8>)>, Seq<Seq<u8>>), (ErrorKind, int)> {
    match rest {
        Err(e) => Err(e),
        Ok((r2, d2)) => Ok((reps0 + r2, deps0 + d2)),
    }
}

/// Scans the text for marker-prefixed tags, pairing each with its directive
/// rewrite and collecting the distinct component dependencies in first-seen
/// order.
pub fn collect_replacements(s: &[u8]) -> (r: Result<
    (Vec<(Vec<u8>, Vec<u8>)>, Vec<Vec<u8>>),
    (ErrorKind, usize),
>)
    ensures
        match r {
            Ok((reps, deps)) => spec_collect(s@, 0, Seq::empty()) == Ok::<
                _,
                (ErrorKind, int),
            >((reps_view(reps@), deps_view(deps@))),
            Err((k, p)) => spec_collect(s@, 0, Seq::empty()) == Err::<
                (Seq<(Seq<u8>, Seq<u8>)>, Seq<Seq<u8>>),
                _,
            >((k, p as int)) && p < s@.len(),
        },
{
    let mut replacements: Vec<(Vec<u8>, Vec<u8>)> = Vec::new();
    let mut dependencies: Vec<Vec<u8>> = Vec::new();
    let mut index: usize = 0;
    let mut lt: Vec<u8> = Vec::new();
    lt.push('<' as u8);
    proof {
        assert(lt@ =~= seq![('<' as u8)]);
        assert(reps_view(replacements@) =~= Seq::<(Seq<u8>, Seq<u8>)>::empty());
        assert(deps_view(dependencies@) =~= Seq::<Seq<u8>>::empty());
        let rest = spec_collect(s@, 0, Seq::empty());
        match rest {
            Err(_) => {},
            Ok((r2, d2)) => {
                assert(Seq::<(Seq<u8>, Seq<u8>)>::empty() + r2 =~= r2);
                assert(Seq::<Seq<u8>>::empty() + d2 =~= d2);
            },
        }
    }
    loop
        invariant_except_break
            0 <= index <= s@.len(),
            lt@ == seq![('<' as u8)],
            spec_collect(s@, 0, Seq::empty()) == spec_collect_merge(
                reps_view(replacements@),
                deps_view(dependencies@),
                spec_collect(s@, index as int, deps_view(dependencies@)),
            ),
        ensures
            spec_collect(s@, 0, Seq::empty()) == Ok::<_, (ErrorKind, int)>(
                (reps_view(replacements@), deps_view(dependencies@)),
            ),
        decreases s@.len() - index,
    {
        let ghost idx0 = index as int;
        let ghost seen0 = deps_view(dependencies@);
        let a = match find_from(s, index, lt.as_slice()) {
            None => {
                proof {
                    assert(spec_collect(s@, idx0, seen0) == Ok::<_, (ErrorKind, int)>((
                        Seq::<(Seq<u8>, Seq<u8>)>::empty(),
                        Seq::<Seq<u8>>::empty(),
                    )));
                    assert(reps_view(replacements@) + Seq::<(Seq<u8>, Seq<u8>)>::empty()
                        =~= reps_view(replacements@));
                    assert(deps_view(dependencies@) + Seq::<Seq<u8>>::empty() =~= deps_view(
                        dependencies@,
                    ));
                }
                break;
            },
            Some(a) => a,
        };
        proof {
            lemma_parse_tag_bounds(s@, a as int);
        }
        match parse_c_tag(s, a) {
            Ok(None) => {
                assert(a + 1 <= s.len());
                index = a + 1;
                proof {
                    assert(spec_collect(s@, idx0, seen0) == spec_collect(s@, index as int, seen0));
                }
            },
            Err(k) => {
                proof {
                    assert(spec_collect(s@, idx0, seen0) == Err::<
                        (Seq<(Seq<u8>, Seq<u8>)>, Seq<Seq<u8>>),
                        _,
                    >((k, a as int)));
                }
                return Err((k, a));
            },
            Ok(Some(tag)) => {
                let ph = tokens::placeholder_prefix();
                let vars = tokens::name_vars();
                let slot = tokens::name_slot();
                if starts_with_at(tag.name.as_slice(), 0, ph.as_slice()) || bytes_eq(
                    tag.name.as_slice(),
                    vars.as_slice(),
                ) {
                    index = tag.end;
                    proof {
                        assert(spec_collect(s@, idx0, seen0) == spec_collect(
                            s@,
                            index as int,
                            seen0,
                        ));
                    }
                } else if bytes_eq(tag.name.as_slice(), slot.as_slice()) {
                    match process_slot(&tag) {
                        Err(k) => {
                            proof {
                                assert(spec_collect(s@, idx0, seen0) == Err::<
                                    (Seq<(Seq<u8>, Seq<u8>)>, Seq<Seq<u8>>),
                                    _,
                                >((k, tag@.start)));
                            }
                            return Err((k, tag.start));
                        },
                        Ok(rep) => {
                            let ghost srep = rep@;
                            let ghost reps0 = reps_view(replacements@);
                            let original = copy_range(
                                tag.original.as_slice(),
                                0,
                                tag.original.len(),
                            );
                            proof {
                                assert(original@ =~= tag@.original);
                            }
                            replacements.push((original, rep));
                            index = tag.end;
                            proof {
                                assert(reps_view(replacements@) =~= reps0 + seq![
                                    (tag@.original, srep),
                                ]);
                                let cn = spec_collect(s@, index as int, seen0);
                                match cn {
                                    Err(_) => {},
                                    Ok((r2, d2)) => {
                                        assert(reps0 + (seq![(tag@.original, srep)] + r2) =~= (
                                        reps0 + seq![(tag@.original, srep)]) + r2);
                                    },
                                }
                                assert(spec_collect(s@, 0, Seq::empty()) == spec_collect_merge(
                                    reps_view(replacements@),
                                    deps_view(dependencies@),
                                    spec_collect(s@, index as int, deps_view(dependencies@)),
                                ));
                            }
                        },
                    }
                } else {
                    match process_component(&tag) {
                        Err(k) => {
                            proof {
                                assert(spec_collect(s@, idx0, seen0) == Err::<
                                    (Seq<(Seq<u8>, Seq<u8>)>, Seq<Seq<u8>>),
                                    _,
                                >((k, tag@.start)));
                            }
                            return Err((k, tag.start));
                        },
                        Ok((rep, dep)) => {
                            let ghost srep = rep@;
                            let ghost sdep = match dep {
                                Some(ref d) => Some(d@),
                                None => None::<Seq<u8>>,
                            };
                            let ghost reps0 = reps_view(replacements@);
                            let original = copy_range(
                                tag.original.as_slice(),
                                0,
                                tag.original.len(),
                            );
                            proof {
                                assert(original@ =~= tag@.original);
                            }
                            replacements.push((original, rep));
                            let ghost add = match sdep {
                                Some(d) => if seen0.contains(d) {
                                    Seq::<Seq<u8>>::empty()
                                } else {
                                    seq![d]
                                },
                                None => Seq::<Seq<u8>>::empty(),
                            };
                            match dep {
                                Some(d) => {
                                    if !deps_contains(&dependencies, d.as_slice()) {
                                        dependencies.push(d);
                                        proof {
                                            assert(deps_view(dependencies@) =~= seen0 + add);
                                        }
                                    } else {
                                        proof {
                                            assert(deps_view(dependencies@) =~= seen0 + add);
                                        }
                                    }
                                },
                                None => {
                                    proof {
                                        assert(deps_view(dependencies@) =~= seen0 + add);
                                    }
                                },
                            }
                            index = tag.end;
                            proof {
                                assert(reps_view(replacements@) =~= reps0 + seq![
                                    (tag@.original, srep),
                                ]);
                                let cn = spec_collect(s@, index as int, seen0 + add);
                                match cn {
                                    Err(_) => {},
                                    Ok((r2, d2)) => {
                                        assert(reps0 + (seq![(tag@.original, srep)] + r2) =~= (
                                        reps0 + seq![(tag@.original, srep)]) + r2);
                                        assert(seen0 + (add + d2) =~= (seen0 + add) + d2);
                                    },
                                }
                                assert(spec_collect(s@, 0, Seq::empty()) == spec_collect_merge(
                                    reps_view(replacements@),
                                    deps_view(dependencies@),
                                    spec_collect(s@, index as int, deps_view(dependencies@)),
                                ));
                            }
                        },
                    }
                }
            },
        }
    }
    Ok((replacements, dependencies))
}

} // verus!
