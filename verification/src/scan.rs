use vstd::prelude::*;

verus! {

/// True when `pat` occurs in `s` starting exactly at index `i`.
pub open spec fn match_at(s: Seq<u8>, i: int, pat: Seq<u8>) -> bool {
    0 <= i && i + pat.len() <= s.len() && s.subrange(i, i + pat.len()) == pat
}

/// Compares `pat` against the bytes of `s` beginning at `i`.
pub fn starts_with_at(s: &[u8], i: usize, pat: &[u8]) -> (r: bool)
    ensures
        r == match_at(s@, i as int, pat@),
{
    if i > s.len() || pat.len() > s.len() - i {
        assert(!match_at(s@, i as int, pat@));
        return false;
    }
    let mut j: usize = 0;
    while j < pat.len()
        invariant
            i + pat.len() <= s.len(),
            0 <= j <= pat.len(),
            forall|k: int| 0 <= k < j ==> s@[i + k] == pat@[k],
        decreases pat.len() - j,
    {
        if s[i + j] != pat[j] {
            assert(s@.subrange(i as int, i + pat.len())[j as int] != pat@[j as int]);
            return false;
        }
        j += 1;
    }
    assert(s@.subrange(i as int, i + pat.len()) =~= pat@);
    true
}

/// Whole-sequence byte equality.
pub fn bytes_eq(a: &[u8], b: &[u8]) -> (r: bool)
    ensures
        r == (a@ == b@),
{
    if a.len() != b.len() {
        return false;
    }
    let mut j: usize = 0;
    while j < a.len()
        invariant
            a@.len() == b@.len(),
            0 <= j <= a@.len(),
            forall|k: int| 0 <= k < j ==> a@[k] == b@[k],
        decreases a@.len() - j,
    {
        if a[j] != b[j] {
            return false;
        }
        j += 1;
    }
    assert(a@ =~= b@);
    true
}

/// Appends every byte of `s` to `out`.
pub fn append_bytes(out: &mut Vec<u8>, s: &[u8])
    ensures
        final(out)@ == old(out)@ + s@,
{
    let mut j: usize = 0;
    while j < s.len()
        invariant
            0 <= j <= s@.len(),
            out@ == old(out)@ + s@.subrange(0, j as int),
        decreases s@.len() - j,
    {
        out.push(s[j]);
        assert(old(out)@ + s@.subrange(0, j as int) + seq![s@[j as int]] =~= old(out)@
            + s@.subrange(0, j + 1));
        j += 1;
    }
    assert(old(out)@ + s@.subrange(0, s@.len() as int) =~= old(out)@ + s@);
}

/// Copies the bytes of `s` between `a` and `b` into a fresh vector.
pub fn copy_range(s: &[u8], a: usize, b: usize) -> (v: Vec<u8>)
    requires
        a <= b <= s@.len(),
    ensures
        v@ == s@.subrange(a as int, b as int),
{
    let mut v: Vec<u8> = Vec::new();
    let mut j: usize = a;
    while j < b
        invariant
            a <= j <= b <= s@.len(),
            v@ == s@.subrange(a as int, j as int),
        decreases b - j,
    {
        v.push(s[j]);
        assert(s@.subrange(a as int, j as int).push(s@[j as int]) =~= s@.subrange(
            a as int,
            j + 1,
        ));
        j += 1;
    }
    v
}

/// ASCII whitespace, as `u8::is_ascii_whitespace` recognizes it.
pub open spec fn is_space(b: u8) -> bool {
    b == 32 || b == 9 || b == 10 || b == 12 || b == 13
}

/// ASCII letters, digits and underscore: the bytes a directive keyword may use.
pub open spec fn is_ident_byte(b: u8) -> bool {
    ('a' as u8) <= b <= ('z' as u8) || ('A' as u8) <= b <= ('Z' as u8) || ('0' as u8) <= b <= (
    '9' as u8) || b == ('_' as u8)
}

pub fn is_space_byte(b: u8) -> (r: bool)
    ensures
        r == is_space(b),
{
    b == 32 || b == 9 || b == 10 || b == 12 || b == 13
}

pub fn is_identifier_byte(b: u8) -> (r: bool)
    ensures
        r == is_ident_byte(b),
{
    (('a' as u8) <= b && b <= ('z' as u8)) || (('A' as u8) <= b && b <= ('Z' as u8)) || (('0'
        as u8) <= b && b <= ('9' as u8)) || b == ('_' as u8)
}

/// Index of the first byte at or after `i` that is not ASCII whitespace.
pub open spec fn spec_skip_whitespace(s: Seq<u8>, i: int) -> int
    decreases s.len() - i,
    when 0 <= i <= s.len()
{
    if i < s.len() && is_space(s[i]) {
        spec_skip_whitespace(s, i + 1)
    } else {
        i
    }
}

pub proof fn lemma_skip_whitespace_bounds(s: Seq<u8>, i: int)
    requires
        0 <= i <= s.len(),
    ensures
        i <= spec_skip_whitespace(s, i) <= s.len(),
    decreases s.len() - i,
{
    if i < s.len() && is_space(s[i]) {
        lemma_skip_whitespace_bounds(s, i + 1);
    }
}

pub fn skip_whitespace(s: &[u8], i: usize) -> (r: usize)
    requires
        i <= s@.len(),
    ensures
        r == spec_skip_whitespace(s@, i as int),
        i <= r <= s@.len(),
{
    let mut j: usize = i;
    while j < s.len() && is_space_byte(s[j])
        invariant
            i <= j <= s@.len(),
            spec_skip_whitespace(s@, i as int) == spec_skip_whitespace(s@, j as int),
        decreases s@.len() - j,
    {
        j += 1;
    }
    j
}

/// Index of the first byte at or after `i` that is not an identifier byte.
pub open spec fn spec_skip_identifier(s: Seq<u8>, i: int) -> int
    decreases s.len() - i,
    when 0 <= i <= s.len()
{
    if i < s.len() && is_ident_byte(s[i]) {
        spec_skip_identifier(s, i + 1)
    } else {
        i
    }
}

pub proof fn lemma_skip_identifier_bounds(s: Seq<u8>, i: int)
    requires
        0 <= i <= s.len(),
    ensures
        i <= spec_skip_identifier(s, i) <= s.len(),
    decreases s.len() - i,
{
    if i < s.len() && is_ident_byte(s[i]) {
        lemma_skip_identifier_bounds(s, i + 1);
    }
}

pub fn skip_identifier(s: &[u8], i: usize) -> (r: usize)
    requires
        i <= s@.len(),
    ensures
        r == spec_skip_identifier(s@, i as int),
        i <= r <= s@.len(),
{
    let mut j: usize = i;
    while j < s.len() && is_identifier_byte(s[j])
        invariant
            i <= j <= s@.len(),
            spec_skip_identifier(s@, i as int) == spec_skip_identifier(s@, j as int),
        decreases s@.len() - j,
    {
        j += 1;
    }
    j
}

/// Position of the leftmost occurrence of `pat` at or after `i`, if any.
pub open spec fn spec_find_from(s: Seq<u8>, i: int, pat: Seq<u8>) -> Option<int>
    decreases s.len() - i,
    when 0 <= i <= s.len()
{
    if match_at(s, i, pat) {
        Some(i)
    } else if i < s.len() {
        spec_find_from(s, i + 1, pat)
    } else {
        None
    }
}

pub proof fn lemma_find_from_bounds(s: Seq<u8>, i: int, pat: Seq<u8>)
    requires
        0 <= i <= s.len(),
    ensures
        spec_find_from(s, i, pat) matches Some(j) ==> i <= j && match_at(s, j, pat),
    decreases s.len() - i,
{
    if !match_at(s, i, pat) && i < s.len() {
        lemma_find_from_bounds(s, i + 1, pat);
    }
}

pub fn find_from(s: &[u8], i: usize, pat: &[u8]) -> (r: Option<usize>)
    requires
        i <= s@.len(),
    ensures
        match r {
            Some(j) => i <= j && j + pat@.len() <= s@.len() && spec_find_from(
                s@,
                i as int,
                pat@,
            ) == Some(j as int),
            None => spec_find_from(s@, i as int, pat@) is None,
        },
{
    let mut j: usize = i;
    loop
        invariant
            i <= j <= s@.len(),
            spec_find_from(s@, i as int, pat@) == spec_find_from(s@, j as int, pat@),
        decreases s@.len() - j,
    {
        if starts_with_at(s, j, pat) {
            return Some(j);
        }
        if j >= s.len() {
            return None;
        }
        j += 1;
    }
}

/// The decimal digits of `n`, most significant first.
pub open spec fn spec_decimal(n: nat) -> Seq<u8>
    decreases n,
{
    if n < 10 {
        seq![(48 + n) as u8]
    } else {
        spec_decimal(n / 10).push((48 + n % 10) as u8)
    }
}

/// Appends the decimal digits of `n` to `out`.
pub fn push_decimal(out: &mut Vec<u8>, n: usize)
    ensures
        final(out)@ == old(out)@ + spec_decimal(n as nat),
    decreases n,
{
    if n < 10 {
        out.push(48 + n as u8);
        assert(old(out)@.push((48 + n) as u8) =~= old(out)@ + spec_decimal(n as nat));
    } else {
        proof {
            assert(n / 10 < n) by (nonlinear_arith)
                requires
                    n >= 10,
            ;
        }
        push_decimal(out, n / 10);
        out.push(48 + (n % 10) as u8);
        assert((old(out)@ + spec_decimal(n as nat / 10)).push((48 + n as nat % 10) as u8)
            =~= old(out)@ + spec_decimal(n as nat));
    }
}

} // verus!
