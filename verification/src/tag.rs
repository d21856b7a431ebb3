use vstd::prelude::*;

use crate::errors::ErrorKind;
use crate::scan::{
    copy_range, is_space, is_space_byte, match_at, skip_whitespace, spec_skip_whitespace,
    lemma_skip_whitespace_bounds, starts_with_at,
};
use crate::tokens;

verus! {

/// One tag attribute; `value` is `None` for a bare, valueless attribute.
pub struct Attribute {
    pub key: Vec<u8>,
    pub value: Option<Vec<u8>>,
}

/// The mathematical shape of an `Attribute`.
#[verifier::ext_equal]
pub struct SpecAttribute {
    pub key: Seq<u8>,
    pub value: Option<Seq<u8>>,
}

impl View for Attribute {
    type V = SpecAttribute;

    open spec fn view(&self) -> SpecAttribute {
        SpecAttribute {
            key: self.key@,
            value: match self.value {
                Some(v) => Some(v@),
                None => None,
            },
        }
    }
}

/// The view of a parsed attribute list.
pub open spec fn attrs_view(attrs: Seq<Attribute>) -> Seq<SpecAttribute> {
    attrs.map_values(|a: Attribute| a@)
}

/// One recognized marker-prefixed tag occurrence.
pub struct ParsedTag {
    /// The exact source slice, angle brackets included.
    pub original: Vec<u8>,
    /// The tag name with the `c-` marker stripped.
    pub name: Vec<u8>,
    pub attributes: Vec<Attribute>,
    /// The raw attribute text between the name and the closing bracket.
    pub attrs_repr: Vec<u8>,
    pub is_closing: bool,
    pub is_self_closing: bool,
    /// Offset of the `<` in the scanned text.
    pub start: usize,
    /// Offset one past the `>` in the scanned text.
    pub end: usize,
}

/// The mathematical shape of a `ParsedTag`.
#[verifier::ext_equal]
pub struct SpecTag {
    pub original: Seq<u8>,
    pub name: Seq<u8>,
    pub attributes: Seq<SpecAttribute>,
    pub attrs_repr: Seq<u8>,
    pub is_closing: bool,
    pub is_self_closing: bool,
    pub start: int,
    pub end: int,
}

impl View for ParsedTag {
    type V = SpecTag;

    open spec fn view(&self) -> SpecTag {
        SpecTag {
            original: self.original@,
            name: self.name@,
            attributes: attrs_view(self.attributes@),
            attrs_repr: self.attrs_repr@,
            is_closing: self.is_closing,
            is_self_closing: self.is_self_closing,
            start: self.start as int,
            end: self.end as int,
        }
    }
}

/// What parsing at one position yields: no marker-prefixed tag there, a tag,
/// or a malformed tag.
#[verifier::ext_equal]
pub enum SpecTagOutcome {
    NoMatch,
    Tag(SpecTag),
    Failed(ErrorKind),
}

/// Index of the first byte at or after `i` that ends a tag name:
/// whitespace, `>` or `/`.
pub open spec fn spec_name_end(s: Seq<u8>, i: int) -> int
    decreases s.len() - i,
    when 0 <= i <= s.len()
{
    if i < s.len() && !(is_space(s[i]) || s[i] == ('>' as u8) || s[i] == ('/' as u8)) {
        spec_name_end(s, i + 1)
    } else {
        i
    }
}

pub proof fn lemma_name_end_bounds(s: Seq<u8>, i: int)
    requires
        0 <= i <= s.len(),
    ensures
        i <= spec_name_end(s, i) <= s.len(),
    decreases s.len() - i,
{
    if i < s.len() && !(is_space(s[i]) || s[i] == ('>' as u8) || s[i] == ('/' as u8)) {
        lemma_name_end_bounds(s, i + 1);
    }
}

fn name_end(s: &[u8], i: usize) -> (r: usize)
    requires
        i <= s@.len(),
    ensures
        r == spec_name_end(s@, i as int),
        i <= r <= s@.len(),
{
    let mut j: usize = i;
    while j < s.len() && !(is_space_byte(s[j]) || s[j] == ('>' as u8) || s[j] == ('/' as u8))
        invariant
            i <= j <= s@.len(),
            spec_name_end(s@, i as int) == spec_name_end(s@, j as int),
        decreases s@.len() - j,
    {
        j += 1;
    }
    j
}

/// Index of the first byte at or after `i` that ends an attribute key:
/// whitespace or `=`.
pub open spec fn spec_key_end(s: Seq<u8>, i: int) -> int
    decreases s.len() - i,
    when 0 <= i <= s.len()
{
    if i < s.len() && !(is_space(s[i]) || s[i] == ('=' as u8)) {
        spec_key_end(s, i + 1)
    } else {
        i
    }
}

pub proof fn lemma_key_end_bounds(s: Seq<u8>, i: int)
    requires
        0 <= i <= s.len(),
    ensures
        i <= spec_key_end(s, i) <= s.len(),
    decreases s.len() - i,
{
    if i < s.len() && !(is_space(s[i]) || s[i] == ('=' as u8)) {
        lemma_key_end_bounds(s, i + 1);
    }
}

fn key_end(s: &[u8], i: usize) -> (r: usize)
    requires
        i <= s@.len(),
    ensures
        r == spec_key_end(s@, i as int),
        i <= r <= s@.len(),
{
    let mut j: usize = i;
    while j < s.len() && !(is_space_byte(s[j]) || s[j] == ('=' as u8))
        invariant
            i <= j <= s@.len(),
            spec_key_end(s@, i as int) == spec_key_end(s@, j as int),
        decreases s@.len() - j,
    {
        j += 1;
    }
    j
}

/// Index of the first whitespace byte at or after `i`.
pub open spec fn spec_space_end(s: Seq<u8>, i: int) -> int
    decreases s.len() - i,
    when 0 <= i <= s.len()
{
    if i < s.len() && !is_space(s[i]) {
        spec_space_end(s, i + 1)
    } else {
        i
    }
}

pub proof fn lemma_space_end_bounds(s: Seq<u8>, i: int)
    requires
        0 <= i <= s.len(),
    ensures
        i <= spec_space_end(s, i) <= s.len(),
    decreases s.len() - i,
{
    if i < s.len() && !is_space(s[i]) {
        lemma_space_end_bounds(s, i + 1);
    }
}

fn space_end(s: &[u8], i: usize) -> (r: usize)
    requires
        i <= s@.len(),
    ensures
        r == spec_space_end(s@, i as int),
        i <= r <= s@.len(),
{
    let mut j: usize = i;
    while j < s.len() && !is_space_byte(s[j])
        invariant
            i <= j <= s@.len(),
            spec_space_end(s@, i as int) == spec_space_end(s@, j as int),
        decreases s@.len() - j,
    {
        j += 1;
    }
    j
}

/// Index of the first occurrence of the quote byte `q` at or after `i`,
/// or the length of `s` when there is none.
pub open spec fn spec_quote_end(s: Seq<u8>, i: int, q: u8) -> int
    decreases s.len() - i,
    when 0 <= i <= s.len()
{
    if i < s.len() && s[i] != q {
        spec_quote_end(s, i + 1, q)
    } else {
        i
    }
}

pub proof fn lemma_quote_end_bounds(s: Seq<u8>, i: int, q: u8)
    requires
        0 <= i <= s.len(),
    ensures
        i <= spec_quote_end(s, i, q) <= s.len(),
    decreases s.len() - i,
{
    if i < s.len() && s[i] != q {
        lemma_quote_end_bounds(s, i + 1, q);
    }
}

fn quote_end(s: &[u8], i: usize, q: u8) -> (r: usize)
    requires
        i <= s@.len(),
    ensures
        r == spec_quote_end(s@, i as int, q),
        i <= r <= s@.len(),
{
    let mut j: usize = i;
    while j < s.len() && s[j] != q
        invariant
            i <= j <= s@.len(),
            spec_quote_end(s@, i as int, q) == spec_quote_end(s@, j as int, q),
        decreases s@.len() - j,
    {
        j += 1;
    }
    j
}

/// Index just past the trailing whitespace run of `s[lo..hi]`.
pub open spec fn spec_trim_back(s: Seq<u8>, lo: int, hi: int) -> int
    decreases hi,
    when 0 <= lo <= hi <= s.len()
{
    if hi > lo && is_space(s[hi - 1]) {
        spec_trim_back(s, lo, hi - 1)
    } else {
        hi
    }
}

fn trim_back(s: &[u8], lo: usize, hi: usize) -> (r: usize)
    requires
        lo <= hi <= s@.len(),
    ensures
        r == spec_trim_back(s@, lo as int, hi as int),
        lo <= r <= hi,
{
    let mut j: usize = hi;
    while j > lo && is_space_byte(s[j - 1])
        invariant
            lo <= j <= hi <= s@.len(),
            spec_trim_back(s@, lo as int, hi as int) == spec_trim_back(s@, lo as int, j as int),
        decreases j,
    {
        j -= 1;
    }
    j
}

/// The attribute text with its surrounding whitespace removed.
pub open spec fn spec_trim(s: Seq<u8>) -> Seq<u8> {
    let lo = spec_skip_whitespace(s, 0);
    let hi = spec_trim_back(s, lo, s.len() as int);
    s.subrange(lo, hi)
}

pub fn trim(s: &[u8]) -> (r: Vec<u8>)
    ensures
        r@ == spec_trim(s@),
{
    let lo = skip_whitespace(s, 0);
    let hi = trim_back(s, lo, s.len());
    copy_range(s, lo, hi)
}

/// Position of the first `>` at or after `pos` that stands outside single or
/// double quotes, given that `quote` is the quote state on entry.
pub open spec fn spec_tag_close(s: Seq<u8>, pos: int, quote: Option<u8>) -> Option<int>
    decreases s.len() - pos,
    when 0 <= pos <= s.len()
{
    if pos >= s.len() {
        None
    } else {
        let c = s[pos];
        if c == ('"' as u8) || c == ('\'' as u8) {
            let q2 = if quote == Some(c) {
                None
            } else if quote is None {
                Some(c)
            } else {
                quote
            };
            spec_tag_close(s, pos + 1, q2)
        } else if c == ('>' as u8) && quote is None {
            Some(pos)
        } else {
            spec_tag_close(s, pos + 1, quote)
        }
    }
}

pub proof fn lemma_tag_close_bounds(s: Seq<u8>, pos: int, quote: Option<u8>)
    requires
        0 <= pos <= s.len(),
    ensures
        spec_tag_close(s, pos, quote) matches Some(p) ==> pos <= p < s.len() && s[p] == ('>' as u8),
    decreases s.len() - pos,
{
    if pos < s.len() {
        let c = s[pos];
        if c == ('"' as u8) || c == ('\'' as u8) {
            let q2 = if quote == Some(c) {
                None
            } else if quote is None {
                Some(c)
            } else {
                quote
            };
            lemma_tag_close_bounds(s, pos + 1, q2);
        } else if !(c == ('>' as u8) && quote is None) {
            lemma_tag_close_bounds(s, pos + 1, quote);
        }
    }
}

fn tag_close(s: &[u8], start: usize) -> (r: Option<usize>)
    requires
        start <= s@.len(),
    ensures
        match r {
            Some(p) => start <= p < s@.len() && Some(p as int) == spec_tag_close(
                s@,
                start as int,
                None,
            ),
            None => spec_tag_close(s@, start as int, None) is None,
        },
{
    let mut pos: usize = start;
    let mut quote: Option<u8> = None;
    loop
        invariant
            start <= pos <= s@.len(),
            spec_tag_close(s@, start as int, None) == spec_tag_close(s@, pos as int, quote),
        decreases s@.len() - pos,
    {
        if pos >= s.len() {
            return None;
        }
        let c = s[pos];
        if c == ('"' as u8) || c == ('\'' as u8) {
            if quote == Some(c) {
                quote = None;
            } else if quote.is_none() {
                quote = Some(c);
            }
        } else if c == ('>' as u8) && quote.is_none() {
            return Some(pos);
        }
        pos += 1;
    }
}

/// The attributes that the raw attribute text `a` holds from position `i` on:
/// whitespace-separated keys, each optionally followed by `=` and a quoted or
/// unquoted value. Parsing stops quietly at the end of the text.
pub open spec fn spec_parse_attributes(a: Seq<u8>, i: int) -> Seq<SpecAttribute>
    decreases a.len() - i,
    when 0 <= i <= a.len()
{
    let i1 = spec_skip_whitespace(a, i);
    if i1 >= a.len() {
        Seq::empty()
    } else {
        let k = spec_key_end(a, i1);
        if k == i1 {
            Seq::empty()
        } else {
            let key = a.subrange(i1, k);
            let i2 = spec_skip_whitespace(a, k);
            if i2 < a.len() && a[i2] == ('=' as u8) {
                let i3 = spec_skip_whitespace(a, i2 + 1);
                if i3 >= a.len() {
                    seq![SpecAttribute { key, value: None }]
                } else if a[i3] == ('"' as u8) || a[i3] == ('\'' as u8) {
                    let ve = spec_quote_end(a, i3 + 1, a[i3]);
                    let value = a.subrange(i3 + 1, ve);
                    let next = if ve < a.len() {
                        ve + 1
                    } else {
                        ve
                    };
                    proof {
                        lemma_skip_whitespace_bounds(a, i);
                        lemma_key_end_bounds(a, i1);
                        lemma_skip_whitespace_bounds(a, k);
                        lemma_skip_whitespace_bounds(a, i2 + 1);
                        lemma_quote_end_bounds(a, i3 + 1, a[i3]);
                    }
                    seq![SpecAttribute { key, value: Some(value) }] + spec_parse_attributes(
                        a,
                        next,
                    )
                } else {
                    let ve = spec_space_end(a, i3);
                    proof {
                        lemma_skip_whitespace_bounds(a, i);
                        lemma_key_end_bounds(a, i1);
                        lemma_skip_whitespace_bounds(a, k);
                        lemma_skip_whitespace_bounds(a, i2 + 1);
                        lemma_space_end_bounds(a, i3);
                    }
                    seq![SpecAttribute { key, value: Some(a.subrange(i3, ve)) }]
                        + spec_parse_attributes(a, ve)
                }
            } else {
                proof {
                    lemma_skip_whitespace_bounds(a, i);
                    lemma_key_end_bounds(a, i1);
                    lemma_skip_whitespace_bounds(a, k);
                }
                seq![SpecAttribute { key, value: None }] + spec_parse_attributes(a, i2)
            }
        }
    }
}

/// Parses the raw attribute text of an opening tag.
pub fn parse_attributes(a: &[u8]) -> (r: Vec<Attribute>)
    ensures
        attrs_view(r@) == spec_parse_attributes(a@, 0),
{
    let mut attributes: Vec<Attribute> = Vec::new();
    let mut index: usize = 0;
    loop
        invariant_except_break
            0 <= index <= a@.len(),
            spec_parse_attributes(a@, 0) == attrs_view(attributes@) + spec_parse_attributes(
                a@,
                index as int,
            ),
        ensures
            attrs_view(attributes@) == spec_parse_attributes(a@, 0),
        decreases a@.len() - index,
    {
        let i1 = skip_whitespace(a, index);
        if i1 >= a.len() {
            proof {
                assert(spec_parse_attributes(a@, index as int) =~= Seq::<SpecAttribute>::empty());
                assert(attrs_view(attributes@) + Seq::<SpecAttribute>::empty() =~= attrs_view(
                    attributes@,
                ));
            }
            break;
        }
        let k = key_end(a, i1);
        if k == i1 {
            proof {
                assert(spec_parse_attributes(a@, index as int) =~= Seq::<SpecAttribute>::empty());
                assert(attrs_view(attributes@) + Seq::<SpecAttribute>::empty() =~= attrs_view(
                    attributes@,
                ));
            }
            break;
        }
        let ghost prev = index as int;
        let key = copy_range(a, i1, k);
        let i2 = skip_whitespace(a, k);
        let attr: Attribute;
        let next: usize;
        if i2 < a.len() && a[i2] == ('=' as u8) {
            let i3 = skip_whitespace(a, i2 + 1);
            if i3 >= a.len() {
                attr = Attribute { key, value: None };
                next = i3;
                proof {
                    assert(spec_parse_attributes(a@, prev) =~= seq![attr@]
                        + spec_parse_attributes(a@, next as int));
                }
            } else if a[i3] == ('"' as u8) || a[i3] == ('\'' as u8) {
                let q = a[i3];
                let ve = quote_end(a, i3 + 1, q);
                let value = copy_range(a, i3 + 1, ve);
                attr = Attribute { key, value: Some(value) };
                next = if ve < a.len() {
                    ve + 1
                } else {
                    ve
                };
                proof {
                    assert(spec_parse_attributes(a@, prev) =~= seq![attr@]
                        + spec_parse_attributes(a@, next as int));
                }
            } else {
                let ve = space_end(a, i3);
                let value = copy_range(a, i3, ve);
                attr = Attribute { key, value: Some(value) };
                next = ve;
                proof {
                    assert(spec_parse_attributes(a@, prev) =~= seq![attr@]
                        + spec_parse_attributes(a@, next as int));
                }
            }
        } else {
            attr = Attribute { key, value: None };
            next = i2;
            proof {
                assert(spec_parse_attributes(a@, prev) =~= seq![attr@] + spec_parse_attributes(
                    a@,
                    next as int,
                ));
            }
        }
        attributes.push(attr);
        proof {
            assert(attrs_view(attributes@) =~= attrs_view(attributes@.drop_last()) + seq![
                attributes@.last()@,
            ]);
            assert(attrs_view(attributes@.drop_last()) + seq![attributes@.last()@]
                + spec_parse_attributes(a@, next as int) =~= attrs_view(attributes@.drop_last()) + (
            seq![attributes@.last()@] + spec_parse_attributes(a@, next as int)));
        }
        index = next;
    }
    attributes
}

/// The outcome of parsing one marker-prefixed tag at `start`.
///
/// `NoMatch` when `start` does not carry `<`, optionally `/`, then the `c-`
/// marker. Otherwise the name runs to the first whitespace, `>` or `/`; an
/// empty name fails. The tag ends at the first `>` outside quotes; for an
/// opening tag the text between name and `>` is trimmed, a trailing `/` marks
/// it self-closing, and the rest is the attribute text.
pub open spec fn spec_parse_tag(s: Seq<u8>, start: int) -> SpecTagOutcome {
    if !(0 <= start < s.len() && s[start] == ('<' as u8)) {
        SpecTagOutcome::NoMatch
    } else {
        let is_closing = start + 1 < s.len() && s[start + 1] == ('/' as u8);
        let m = if is_closing {
            start + 2
        } else {
            start + 1
        };
        if m >= s.len() || !match_at(s, m, tokens::spec_tag_marker()) {
            SpecTagOutcome::NoMatch
        } else {
            let name_start = m + 2;
            let ne = spec_name_end(s, name_start);
            if ne == name_start {
                SpecTagOutcome::Failed(ErrorKind::MissingComponentName)
            } else {
                let name = s.subrange(name_start, ne);
                match spec_tag_close(s, ne, None) {
                    None => SpecTagOutcome::Failed(ErrorKind::UnterminatedTag),
                    Some(p) => {
                        let end = p + 1;
                        if is_closing {
                            SpecTagOutcome::Tag(
                                SpecTag {
                                    original: s.subrange(start, end),
                                    name,
                                    attributes: Seq::empty(),
                                    attrs_repr: Seq::empty(),
                                    is_closing: true,
                                    is_self_closing: false,
                                    start,
                                    end,
                                },
                            )
                        } else {
                            let t0 = spec_trim_back(s, ne, p);
                            let self_closing = t0 > ne && s[t0 - 1] == ('/' as u8);
                            let attr_end = if self_closing {
                                spec_trim_back(s, ne, t0 - 1)
                            } else {
                                t0
                            };
                            let attrs_repr = s.subrange(ne, attr_end);
                            SpecTagOutcome::Tag(
                                SpecTag {
                                    original: s.subrange(start, end),
                                    name,
                                    attributes: spec_parse_attributes(attrs_repr, 0),
                                    attrs_repr,
                                    is_closing: false,
                                    is_self_closing: self_closing,
                                    start,
                                    end,
                                },
                            )
                        }
                    },
                }
            }
        }
    }
}

/// Bounds of a successfully parsed tag: it begins at `start` and its end
/// lies past `start`, within the text.
pub proof fn lemma_parse_tag_bounds(s: Seq<u8>, start: int)
    requires
        0 <= start <= s.len(),
    ensures
        spec_parse_tag(s, start) matches SpecTagOutcome::Tag(t) ==> t.start == start && start
            < t.end <= s.len(),
{
    if 0 <= start < s.len() && s[start] == ('<' as u8) {
        let is_closing = start + 1 < s.len() && s[start + 1] == ('/' as u8);
        let m = if is_closing {
            start + 2
        } else {
            start + 1
        };
        if m < s.len() && match_at(s, m, tokens::spec_tag_marker()) {
            let name_start = m + 2;
            lemma_name_end_bounds(s, name_start);
            let ne = spec_name_end(s, name_start);
            if ne != name_start {
                lemma_tag_close_bounds(s, ne, None);
            }
        }
    }
}

/// Attempts to parse one marker-prefixed tag at `start`.
pub fn parse_c_tag(s: &[u8], start: usize) -> (r: Result<Option<ParsedTag>, ErrorKind>)
    requires
        start <= s@.len(),
    ensures
        match r {
            Ok(None) => spec_parse_tag(s@, start as int) is NoMatch,
            Ok(Some(tag)) => spec_parse_tag(s@, start as int) == SpecTagOutcome::Tag(tag@),
            Err(k) => spec_parse_tag(s@, start as int) == SpecTagOutcome::Failed(k),
        },
{
    if start >= s.len() || s[start] != ('<' as u8) {
        return Ok(None);
    }
    let is_closing = start + 1 < s.len() && s[start + 1] == ('/' as u8);
    let m = if is_closing {
        start + 2
    } else {
        start + 1
    };
    let marker = tokens::tag_marker();
    if m >= s.len() || !starts_with_at(s, m, marker.as_slice()) {
        return Ok(None);
    }
    let name_start = m + 2;
    let ne = name_end(s, name_start);
    if ne == name_start {
        return Err(ErrorKind::MissingComponentName);
    }
    let name = copy_range(s, name_start, ne);
    let p = match tag_close(s, ne) {
        None => {
            return Err(ErrorKind::UnterminatedTag);
        },
        Some(p) => p,
    };
    let end = p + 1;
    if is_closing {
        let tag = ParsedTag {
            original: copy_range(s, start, end),
            name,
            attributes: Vec::new(),
            attrs_repr: Vec::new(),
            is_closing: true,
            is_self_closing: false,
            start,
            end,
        };
        proof {
            assert(attrs_view(Seq::<Attribute>::empty()) =~= Seq::<SpecAttribute>::empty());
            assert(spec_parse_tag(s@, start as int) == SpecTagOutcome::Tag(tag@));
        }
        return Ok(Some(tag));
    }
    let t0 = trim_back(s, ne, p);
    let self_closing = t0 > ne && s[t0 - 1] == ('/' as u8);
    let attr_end = if self_closing {
        trim_back(s, ne, t0 - 1)
    } else {
        t0
    };
    let attrs_repr = copy_range(s, ne, attr_end);
    let attributes = parse_attributes(attrs_repr.as_slice());
    let tag = ParsedTag {
        original: copy_range(s, start, end),
        name,
        attributes,
        attrs_repr,
        is_closing: false,
        is_self_closing: self_closing,
        start,
        end,
    };
    proof {
        assert(spec_parse_tag(s@, start as int) == SpecTagOutcome::Tag(tag@));
    }
    Ok(Some(tag))
}

} // verus!
