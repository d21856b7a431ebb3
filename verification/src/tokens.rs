use vstd::prelude::*;

verus! {

/// The byte sequence of `{%`.
pub open spec fn spec_directive_open() -> Seq<u8> {
    seq!['{' as u8, '%' as u8]
}

pub fn directive_open() -> (v: Vec<u8>)
    ensures
        v@ == spec_directive_open(),
{
    let mut v: Vec<u8> = Vec::new();
    v.push('{' as u8);
    v.push('%' as u8);
    proof { assert(v@ =~= spec_directive_open()); }
    v
}

/// The byte sequence of `%}`.
pub open spec fn spec_directive_close() -> Seq<u8> {
    seq!['%' as u8, '}' as u8]
}

pub fn directive_close() -> (v: Vec<u8>)
    ensures
        v@ == spec_directive_close(),
{
    let mut v: Vec<u8> = Vec::new();
    v.push('%' as u8);
    v.push('}' as u8);
    proof { assert(v@ =~= spec_directive_close()); }
    v
}

/// The byte sequence of `{#`.
pub open spec fn spec_comment_open() -> Seq<u8> {
    seq!['{' as u8, '#' as u8]
}

pub fn comment_open() -> (v: Vec<u8>)
    ensures
        v@ == spec_comment_open(),
{
    let mut v: Vec<u8> = Vec::new();
    v.push('{' as u8);
    v.push('#' as u8);
    proof { assert(v@ =~= spec_comment_open()); }
    v
}

/// The byte sequence of `#}`.
pub open spec fn spec_comment_close() -> Seq<u8> {
    seq!['#' as u8, '}' as u8]
}

pub fn comment_close() -> (v: Vec<u8>)
    ensures
        v@ == spec_comment_close(),
{
    let mut v: Vec<u8> = Vec::new();
    v.push('#' as u8);
    v.push('}' as u8);
    proof { assert(v@ =~= spec_comment_close()); }
    v
}

/// The byte sequence of `{{`.
pub open spec fn spec_expr_open() -> Seq<u8> {
    seq!['{' as u8, '{' as u8]
}

pub fn expr_open() -> (v: Vec<u8>)
    ensures
        v@ == spec_expr_open(),
{
    let mut v: Vec<u8> = Vec::new();
    v.push('{' as u8);
    v.push('{' as u8);
    proof { assert(v@ =~= spec_expr_open()); }
    v
}

/// The byte sequence of `}}`.
pub open spec fn spec_expr_close() -> Seq<u8> {
    seq!['}' as u8, '}' as u8]
}

pub fn expr_close() -> (v: Vec<u8>)
    ensures
        v@ == spec_expr_close(),
{
    let mut v: Vec<u8> = Vec::new();
    v.push('}' as u8);
    v.push('}' as u8);
    proof { assert(v@ =~= spec_expr_close()); }
    v
}

/// The byte sequence of `cotton_verbatim`.
pub open spec fn spec_kw_verbatim() -> Seq<u8> {
    seq!['c' as u8, 'o' as u8, 't' as u8, 't' as u8, 'o' as u8, 'n' as u8, '_' as u8, 'v' as u8, 'e' as u8, 'r' as u8, 'b' as u8, 'a' as u8, 't' as u8, 'i' as u8, 'm' as u8]
}

pub fn kw_verbatim() -> (v: Vec<u8>)
    ensures
        v@ == spec_kw_verbatim(),
{
    let mut v: Vec<u8> = Vec::new();
    v.push('c' as u8);
    v.push('o' as u8);
    v.push('t' as u8);
    v.push('t' as u8);
    v.push('o' as u8);
    v.push('n' as u8);
    v.push('_' as u8);
    v.push('v' as u8);
    v.push('e' as u8);
    v.push('r' as u8);
    v.push('b' as u8);
    v.push('a' as u8);
    v.push('t' as u8);
    v.push('i' as u8);
    v.push('m' as u8);
    proof { assert(v@ =~= spec_kw_verbatim()); }
    v
}

/// The byte sequence of `endcotton_verbatim`.
pub open spec fn spec_kw_end_verbatim() -> Seq<u8> {
    seq!['e' as u8, 'n' as u8, 'd' as u8, 'c' as u8, 'o' as u8, 't' as u8, 't' as u8, 'o' as u8, 'n' as u8, '_' as u8, 'v' as u8, 'e' as u8, 'r' as u8, 'b' as u8, 'a' as u8, 't' as u8, 'i' as u8, 'm' as u8]
}

pub fn kw_end_verbatim() -> (v: Vec<u8>)
    ensures
        v@ == spec_kw_end_verbatim(),
{
    let mut v: Vec<u8> = Vec::new();
    v.push('e' as u8);
    v.push('n' as u8);
    v.push('d' as u8);
    v.push('c' as u8);
    v.push('o' as u8);
    v.push('t' as u8);
    v.push('t' as u8);
    v.push('o' as u8);
    v.push('n' as u8);
    v.push('_' as u8);
    v.push('v' as u8);
    v.push('e' as u8);
    v.push('r' as u8);
    v.push('b' as u8);
    v.push('a' as u8);
    v.push('t' as u8);
    v.push('i' as u8);
    v.push('m' as u8);
    proof { assert(v@ =~= spec_kw_end_verbatim()); }
    v
}

/// The byte sequence of `comment`.
pub open spec fn spec_kw_comment() -> Seq<u8> {
    seq!['c' as u8, 'o' as u8, 'm' as u8, 'm' as u8, 'e' as u8, 'n' as u8, 't' as u8]
}

pub fn kw_comment() -> (v: Vec<u8>)
    ensures
        v@ == spec_kw_comment(),
{
    let mut v: Vec<u8> = Vec::new();
    v.push('c' as u8);
    v.push('o' as u8);
    v.push('m' as u8);
    v.push('m' as u8);
    v.push('e' as u8);
    v.push('n' as u8);
    v.push('t' as u8);
    proof { assert(v@ =~= spec_kw_comment()); }
    v
}

/// The byte sequence of `endcomment`.
pub open spec fn spec_kw_end_comment() -> Seq<u8> {
    seq!['e' as u8, 'n' as u8, 'd' as u8, 'c' as u8, 'o' as u8, 'm' as u8, 'm' as u8, 'e' as u8, 'n' as u8, 't' as u8]
}

pub fn kw_end_comment() -> (v: Vec<u8>)
    ensures
        v@ == spec_kw_end_comment(),
{
    let mut v: Vec<u8> = Vec::new();
    v.push('e' as u8);
    v.push('n' as u8);
    v.push('d' as u8);
    v.push('c' as u8);
    v.push('o' as u8);
    v.push('m' as u8);
    v.push('m' as u8);
    v.push('e' as u8);
    v.push('n' as u8);
    v.push('t' as u8);
    proof { assert(v@ =~= spec_kw_end_comment()); }
    v
}

/// The byte sequence of `{% cotton_verbatim`.
pub open spec fn spec_verbatim_block_open() -> Seq<u8> {
    seq!['{' as u8, '%' as u8, ' ' as u8, 'c' as u8, 'o' as u8, 't' as u8, 't' as u8, 'o' as u8, 'n' as u8, '_' as u8, 'v' as u8, 'e' as u8, 'r' as u8, 'b' as u8, 'a' as u8, 't' as u8, 'i' as u8, 'm' as u8]
}

pub fn verbatim_block_open() -> (v: Vec<u8>)
    ensures
        v@ == spec_verbatim_block_open(),
{
    let mut v: Vec<u8> = Vec::new();
    v.push('{' as u8);
    v.push('%' as u8);
    v.push(' ' as u8);
    v.push('c' as u8);
    v.push('o' as u8);
    v.push('t' as u8);
    v.push('t' as u8);
    v.push('o' as u8);
    v.push('n' as u8);
    v.push('_' as u8);
    v.push('v' as u8);
    v.push('e' as u8);
    v.push('r' as u8);
    v.push('b' as u8);
    v.push('a' as u8);
    v.push('t' as u8);
    v.push('i' as u8);
    v.push('m' as u8);
    proof { assert(v@ =~= spec_verbatim_block_open()); }
    v
}

/// The byte sequence of `{% endcotton_verbatim`.
pub open spec fn spec_verbatim_block_close() -> Seq<u8> {
    seq!['{' as u8, '%' as u8, ' ' as u8, 'e' as u8, 'n' as u8, 'd' as u8, 'c' as u8, 'o' as u8, 't' as u8, 't' as u8, 'o' as u8, 'n' as u8, '_' as u8, 'v' as u8, 'e' as u8, 'r' as u8, 'b' as u8, 'a' as u8, 't' as u8, 'i' as u8, 'm' as u8]
}

pub fn verbatim_block_close() -> (v: Vec<u8>)
    ensures
        v@ == spec_verbatim_block_close(),
{
    let mut v: Vec<u8> = Vec::new();
    v.push('{' as u8);
    v.push('%' as u8);
    v.push(' ' as u8);
    v.push('e' as u8);
    v.push('n' as u8);
    v.push('d' as u8);
    v.push('c' as u8);
    v.push('o' as u8);
    v.push('t' as u8);
    v.push('t' as u8);
    v.push('o' as u8);
    v.push('n' as u8);
    v.push('_' as u8);
    v.push('v' as u8);
    v.push('e' as u8);
    v.push('r' as u8);
    v.push('b' as u8);
    v.push('a' as u8);
    v.push('t' as u8);
    v.push('i' as u8);
    v.push('m' as u8);
    proof { assert(v@ =~= spec_verbatim_block_close()); }
    v
}

/// The byte sequence of `<c-vars`.
pub open spec fn spec_vars_open_needle() -> Seq<u8> {
    seq!['<' as u8, 'c' as u8, '-' as u8, 'v' as u8, 'a' as u8, 'r' as u8, 's' as u8]
}

pub fn vars_open_needle() -> (v: Vec<u8>)
    ensures
        v@ == spec_vars_open_needle(),
{
    let mut v: Vec<u8> = Vec::new();
    v.push('<' as u8);
    v.push('c' as u8);
    v.push('-' as u8);
    v.push('v' as u8);
    v.push('a' as u8);
    v.push('r' as u8);
    v.push('s' as u8);
    proof { assert(v@ =~= spec_vars_open_needle()); }
    v
}

/// The byte sequence of `</c-vars>`.
pub open spec fn spec_vars_close_tag() -> Seq<u8> {
    seq!['<' as u8, '/' as u8, 'c' as u8, '-' as u8, 'v' as u8, 'a' as u8, 'r' as u8, 's' as u8, '>' as u8]
}

pub fn vars_close_tag() -> (v: Vec<u8>)
    ensures
        v@ == spec_vars_close_tag(),
{
    let mut v: Vec<u8> = Vec::new();
    v.push('<' as u8);
    v.push('/' as u8);
    v.push('c' as u8);
    v.push('-' as u8);
    v.push('v' as u8);
    v.push('a' as u8);
    v.push('r' as u8);
    v.push('s' as u8);
    v.push('>' as u8);
    proof { assert(v@ =~= spec_vars_close_tag()); }
    v
}

/// The byte sequence of `__COTTON_IGNORE_`.
pub open spec fn spec_placeholder_prefix() -> Seq<u8> {
    seq!['_' as u8, '_' as u8, 'C' as u8, 'O' as u8, 'T' as u8, 'T' as u8, 'O' as u8, 'N' as u8, '_' as u8, 'I' as u8, 'G' as u8, 'N' as u8, 'O' as u8, 'R' as u8, 'E' as u8, '_' as u8]
}

pub fn placeholder_prefix() -> (v: Vec<u8>)
    ensures
        v@ == spec_placeholder_prefix(),
{
    let mut v: Vec<u8> = Vec::new();
    v.push('_' as u8);
    v.push('_' as u8);
    v.push('C' as u8);
    v.push('O' as u8);
    v.push('T' as u8);
    v.push('T' as u8);
    v.push('O' as u8);
    v.push('N' as u8);
    v.push('_' as u8);
    v.push('I' as u8);
    v.push('G' as u8);
    v.push('N' as u8);
    v.push('O' as u8);
    v.push('R' as u8);
    v.push('E' as u8);
    v.push('_' as u8);
    proof { assert(v@ =~= spec_placeholder_prefix()); }
    v
}

/// The byte sequence of `__`.
pub open spec fn spec_placeholder_suffix() -> Seq<u8> {
    seq!['_' as u8, '_' as u8]
}

pub fn placeholder_suffix() -> (v: Vec<u8>)
    ensures
        v@ == spec_placeholder_suffix(),
{
    let mut v: Vec<u8> = Vec::new();
    v.push('_' as u8);
    v.push('_' as u8);
    proof { assert(v@ =~= spec_placeholder_suffix()); }
    v
}

/// The byte sequence of `{% vars `.
pub open spec fn spec_vars_header_open() -> Seq<u8> {
    seq!['{' as u8, '%' as u8, ' ' as u8, 'v' as u8, 'a' as u8, 'r' as u8, 's' as u8, ' ' as u8]
}

pub fn vars_header_open() -> (v: Vec<u8>)
    ensures
        v@ == spec_vars_header_open(),
{
    let mut v: Vec<u8> = Vec::new();
    v.push('{' as u8);
    v.push('%' as u8);
    v.push(' ' as u8);
    v.push('v' as u8);
    v.push('a' as u8);
    v.push('r' as u8);
    v.push('s' as u8);
    v.push(' ' as u8);
    proof { assert(v@ =~= spec_vars_header_open()); }
    v
}

/// The byte sequence of ` %}`.
pub open spec fn spec_padded_close() -> Seq<u8> {
    seq![' ' as u8, '%' as u8, '}' as u8]
}

pub fn padded_close() -> (v: Vec<u8>)
    ensures
        v@ == spec_padded_close(),
{
    let mut v: Vec<u8> = Vec::new();
    v.push(' ' as u8);
    v.push('%' as u8);
    v.push('}' as u8);
    proof { assert(v@ =~= spec_padded_close()); }
    v
}

/// The byte sequence of `{% endvars %}`.
pub open spec fn spec_end_vars() -> Seq<u8> {
    seq!['{' as u8, '%' as u8, ' ' as u8, 'e' as u8, 'n' as u8, 'd' as u8, 'v' as u8, 'a' as u8, 'r' as u8, 's' as u8, ' ' as u8, '%' as u8, '}' as u8]
}

pub fn end_vars() -> (v: Vec<u8>)
    ensures
        v@ == spec_end_vars(),
{
    let mut v: Vec<u8> = Vec::new();
    v.push('{' as u8);
    v.push('%' as u8);
    v.push(' ' as u8);
    v.push('e' as u8);
    v.push('n' as u8);
    v.push('d' as u8);
    v.push('v' as u8);
    v.push('a' as u8);
    v.push('r' as u8);
    v.push('s' as u8);
    v.push(' ' as u8);
    v.push('%' as u8);
    v.push('}' as u8);
    proof { assert(v@ =~= spec_end_vars()); }
    v
}

/// The byte sequence of `{% slot `.
pub open spec fn spec_slot_open() -> Seq<u8> {
    seq!['{' as u8, '%' as u8, ' ' as u8, 's' as u8, 'l' as u8, 'o' as u8, 't' as u8, ' ' as u8]
}

pub fn slot_open() -> (v: Vec<u8>)
    ensures
        v@ == spec_slot_open(),
{
    let mut v: Vec<u8> = Vec::new();
    v.push('{' as u8);
    v.push('%' as u8);
    v.push(' ' as u8);
    v.push('s' as u8);
    v.push('l' as u8);
    v.push('o' as u8);
    v.push('t' as u8);
    v.push(' ' as u8);
    proof { assert(v@ =~= spec_slot_open()); }
    v
}

/// The byte sequence of `{% endslot %}`.
pub open spec fn spec_end_slot() -> Seq<u8> {
    seq!['{' as u8, '%' as u8, ' ' as u8, 'e' as u8, 'n' as u8, 'd' as u8, 's' as u8, 'l' as u8, 'o' as u8, 't' as u8, ' ' as u8, '%' as u8, '}' as u8]
}

pub fn end_slot() -> (v: Vec<u8>)
    ensures
        v@ == spec_end_slot(),
{
    let mut v: Vec<u8> = Vec::new();
    v.push('{' as u8);
    v.push('%' as u8);
    v.push(' ' as u8);
    v.push('e' as u8);
    v.push('n' as u8);
    v.push('d' as u8);
    v.push('s' as u8);
    v.push('l' as u8);
    v.push('o' as u8);
    v.push('t' as u8);
    v.push(' ' as u8);
    v.push('%' as u8);
    v.push('}' as u8);
    proof { assert(v@ =~= spec_end_slot()); }
    v
}

/// The byte sequence of `{% c `.
pub open spec fn spec_comp_open() -> Seq<u8> {
    seq!['{' as u8, '%' as u8, ' ' as u8, 'c' as u8, ' ' as u8]
}

pub fn comp_open() -> (v: Vec<u8>)
    ensures
        v@ == spec_comp_open(),
{
    let mut v: Vec<u8> = Vec::new();
    v.push('{' as u8);
    v.push('%' as u8);
    v.push(' ' as u8);
    v.push('c' as u8);
    v.push(' ' as u8);
    proof { assert(v@ =~= spec_comp_open()); }
    v
}

/// The byte sequence of `{% endc %}`.
pub open spec fn spec_end_comp() -> Seq<u8> {
    seq!['{' as u8, '%' as u8, ' ' as u8, 'e' as u8, 'n' as u8, 'd' as u8, 'c' as u8, ' ' as u8, '%' as u8, '}' as u8]
}

pub fn end_comp() -> (v: Vec<u8>)
    ensures
        v@ == spec_end_comp(),
{
    let mut v: Vec<u8> = Vec::new();
    v.push('{' as u8);
    v.push('%' as u8);
    v.push(' ' as u8);
    v.push('e' as u8);
    v.push('n' as u8);
    v.push('d' as u8);
    v.push('c' as u8);
    v.push(' ' as u8);
    v.push('%' as u8);
    v.push('}' as u8);
    proof { assert(v@ =~= spec_end_comp()); }
    v
}

/// The byte sequence of `{% attr `.
pub open spec fn spec_attr_open() -> Seq<u8> {
    seq!['{' as u8, '%' as u8, ' ' as u8, 'a' as u8, 't' as u8, 't' as u8, 'r' as u8, ' ' as u8]
}

pub fn attr_open() -> (v: Vec<u8>)
    ensures
        v@ == spec_attr_open(),
{
    let mut v: Vec<u8> = Vec::new();
    v.push('{' as u8);
    v.push('%' as u8);
    v.push(' ' as u8);
    v.push('a' as u8);
    v.push('t' as u8);
    v.push('t' as u8);
    v.push('r' as u8);
    v.push(' ' as u8);
    proof { assert(v@ =~= spec_attr_open()); }
    v
}

/// The byte sequence of `{% endattr %}`.
pub open spec fn spec_end_attr() -> Seq<u8> {
    seq!['{' as u8, '%' as u8, ' ' as u8, 'e' as u8, 'n' as u8, 'd' as u8, 'a' as u8, 't' as u8, 't' as u8, 'r' as u8, ' ' as u8, '%' as u8, '}' as u8]
}

pub fn end_attr() -> (v: Vec<u8>)
    ensures
        v@ == spec_end_attr(),
{
    let mut v: Vec<u8> = Vec::new();
    v.push('{' as u8);
    v.push('%' as u8);
    v.push(' ' as u8);
    v.push('e' as u8);
    v.push('n' as u8);
    v.push('d' as u8);
    v.push('a' as u8);
    v.push('t' as u8);
    v.push('t' as u8);
    v.push('r' as u8);
    v.push(' ' as u8);
    v.push('%' as u8);
    v.push('}' as u8);
    proof { assert(v@ =~= spec_end_attr()); }
    v
}

/// The byte sequence of `c-`.
pub open spec fn spec_tag_marker() -> Seq<u8> {
    seq!['c' as u8, '-' as u8]
}

pub fn tag_marker() -> (v: Vec<u8>)
    ensures
        v@ == spec_tag_marker(),
{
    let mut v: Vec<u8> = Vec::new();
    v.push('c' as u8);
    v.push('-' as u8);
    proof { assert(v@ =~= spec_tag_marker()); }
    v
}

/// The byte sequence of `vars`.
pub open spec fn spec_name_vars() -> Seq<u8> {
    seq!['v' as u8, 'a' as u8, 'r' as u8, 's' as u8]
}

pub fn name_vars() -> (v: Vec<u8>)
    ensures
        v@ == spec_name_vars(),
{
    let mut v: Vec<u8> = Vec::new();
    v.push('v' as u8);
    v.push('a' as u8);
    v.push('r' as u8);
    v.push('s' as u8);
    proof { assert(v@ =~= spec_name_vars()); }
    v
}

/// The byte sequence of `slot`.
pub open spec fn spec_name_slot() -> Seq<u8> {
    seq!['s' as u8, 'l' as u8, 'o' as u8, 't' as u8]
}

pub fn name_slot() -> (v: Vec<u8>)
    ensures
        v@ == spec_name_slot(),
{
    let mut v: Vec<u8> = Vec::new();
    v.push('s' as u8);
    v.push('l' as u8);
    v.push('o' as u8);
    v.push('t' as u8);
    proof { assert(v@ =~= spec_name_slot()); }
    v
}

/// The byte sequence of `component`.
pub open spec fn spec_name_component() -> Seq<u8> {
    seq!['c' as u8, 'o' as u8, 'm' as u8, 'p' as u8, 'o' as u8, 'n' as u8, 'e' as u8, 'n' as u8, 't' as u8]
}

pub fn name_component() -> (v: Vec<u8>)
    ensures
        v@ == spec_name_component(),
{
    let mut v: Vec<u8> = Vec::new();
    v.push('c' as u8);
    v.push('o' as u8);
    v.push('m' as u8);
    v.push('p' as u8);
    v.push('o' as u8);
    v.push('n' as u8);
    v.push('e' as u8);
    v.push('n' as u8);
    v.push('t' as u8);
    proof { assert(v@ =~= spec_name_component()); }
    v
}

/// The byte sequence of `name`.
pub open spec fn spec_attr_key_name() -> Seq<u8> {
    seq!['n' as u8, 'a' as u8, 'm' as u8, 'e' as u8]
}

pub fn attr_key_name() -> (v: Vec<u8>)
    ensures
        v@ == spec_attr_key_name(),
{
    let mut v: Vec<u8> = Vec::new();
    v.push('n' as u8);
    v.push('a' as u8);
    v.push('m' as u8);
    v.push('e' as u8);
    proof { assert(v@ =~= spec_attr_key_name()); }
    v
}

/// The byte sequence of `is`.
pub open spec fn spec_attr_key_is() -> Seq<u8> {
    seq!['i' as u8, 's' as u8]
}

pub fn attr_key_is() -> (v: Vec<u8>)
    ensures
        v@ == spec_attr_key_is(),
{
    let mut v: Vec<u8> = Vec::new();
    v.push('i' as u8);
    v.push('s' as u8);
    proof { assert(v@ =~= spec_attr_key_is()); }
    v
}

/// The byte sequence of `</c-vars`.
pub open spec fn spec_vars_close_needle() -> Seq<u8> {
    seq!['<' as u8, '/' as u8, 'c' as u8, '-' as u8, 'v' as u8, 'a' as u8, 'r' as u8, 's' as u8]
}

pub fn vars_close_needle() -> (v: Vec<u8>)
    ensures
        v@ == spec_vars_close_needle(),
{
    let mut v: Vec<u8> = Vec::new();
    v.push('<' as u8);
    v.push('/' as u8);
    v.push('c' as u8);
    v.push('-' as u8);
    v.push('v' as u8);
    v.push('a' as u8);
    v.push('r' as u8);
    v.push('s' as u8);
    proof { assert(v@ =~= spec_vars_close_needle()); }
    v
}

} // verus!
