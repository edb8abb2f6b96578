//! Byte classification and maximal-munch scanning shared by all recognizers.

use vstd::prelude::*;

verus! {

/// `!`, marker of an SPDX header line.
pub const BANG: u8 = 0x21;
/// `&`, marker of a template header line.
pub const AMP: u8 = 0x26;
/// ASCII space.
pub const SP: u8 = 0x20;
/// Horizontal tab.
pub const TAB: u8 = 0x09;
/// Line feed, the line terminator.
pub const NL: u8 = 0x0a;
/// `;`, separator between license and copyright clause.
pub const SEMI: u8 = 0x3b;
/// `:`, separator between identifier and signature.
pub const COLON: u8 = 0x3a;
/// `,`, separator inside a forma list.
pub const COMMA: u8 = 0x2c;
/// `-`, first byte of the arrow and the year-range marker.
pub const DASH: u8 = 0x2d;
/// `>`, second byte of the arrow `->`.
pub const GT: u8 = 0x3e;
/// `(`, `c`, `)`: the copyright marker `(c)`.
pub const LPAREN: u8 = 0x28;
pub const CLOWER: u8 = 0x63;
pub const RPAREN: u8 = 0x29;
/// `_`, permitted inside identifiers.
pub const UNDERSCORE: u8 = 0x5f;
/// `.`, permitted inside template names.
pub const DOT: u8 = 0x2e;

/// Lowercase ASCII letter `a`..=`z`.
pub open spec fn is_lower(c: u8) -> bool {
    0x61 <= c <= 0x7a
}

/// Uppercase ASCII letter `A`..=`Z`.
pub open spec fn is_upper(c: u8) -> bool {
    0x41 <= c <= 0x5a
}

/// ASCII digit `0`..=`9`.
pub open spec fn is_ascii_digit(c: u8) -> bool {
    0x30 <= c <= 0x39
}

/// Byte permitted inside an identifier: lowercase letter, digit or underscore.
pub open spec fn is_ident_char(c: u8) -> bool {
    is_lower(c) || is_ascii_digit(c) || c == UNDERSCORE
}

/// Byte permitted inside a forma after its leading uppercase letter.
pub open spec fn is_forma_char(c: u8) -> bool {
    is_lower(c) || is_upper(c) || is_ascii_digit(c)
}

/// Byte permitted in a template name: letter, digit, hyphen or dot.
pub open spec fn is_slug_char(c: u8) -> bool {
    is_lower(c) || is_upper(c) || is_ascii_digit(c) || c == DASH || c == DOT
}

/// Intra-line whitespace: space or tab.
pub open spec fn is_space(c: u8) -> bool {
    c == SP || c == TAB
}

/// The byte classes a scan can run over.
#[derive(Clone, Copy, PartialEq, Eq, Structural, Debug)]
pub enum CharClass {
    Ident,
    Forma,
    Slug,
    Space,
    NotNewline,
    NotSemi,
}

/// Membership of a byte in a class.
pub open spec fn in_class(c: u8, k: CharClass) -> bool {
    match k {
        CharClass::Ident => is_ident_char(c),
        CharClass::Forma => is_forma_char(c),
        CharClass::Slug => is_slug_char(c),
        CharClass::Space => is_space(c),
        CharClass::NotNewline => c != NL,
        CharClass::NotSemi => c != SEMI,
    }
}

/// First position in `[i, hi)` whose byte is outside class `k`, or `hi` if
/// every byte of the range is in the class: the maximal-munch end.
pub open spec fn spec_munch(s: Seq<u8>, i: int, hi: int, k: CharClass) -> int
    recommends
        0 <= i <= hi <= s.len(),
    decreases hi - i,
{
    if i < hi && 0 <= i < s.len() && in_class(s[i], k) {
        spec_munch(s, i + 1, hi, k)
    } else {
        i
    }
}

/// The defining properties of a munch: it stays inside `[i, hi]`, everything
/// before it is in the class, and it stops only at `hi` or at a byte outside
/// the class.
pub proof fn lemma_munch(s: Seq<u8>, i: int, hi: int, k: CharClass)
    requires
        0 <= i <= hi <= s.len(),
    ensures
        i <= spec_munch(s, i, hi, k) <= hi,
        forall|j: int| i <= j < spec_munch(s, i, hi, k) ==> in_class(s[j], k),
        spec_munch(s, i, hi, k) == hi || !in_class(s[spec_munch(s, i, hi, k)], k),
    decreases hi - i,
{
    if i < hi && in_class(s[i], k) {
        lemma_munch(s, i + 1, hi, k);
    }
}

/// Bounds of a munch that hold for every argument, even outside the intended
/// window: it never moves backwards, and it never passes `hi` when it starts
/// at or before `hi`.
pub proof fn lemma_munch_range(s: Seq<u8>, i: int, hi: int, k: CharClass)
    ensures
        i <= spec_munch(s, i, hi, k),
        i <= hi ==> spec_munch(s, i, hi, k) <= hi,
    decreases hi - i,
{
    if i < hi && 0 <= i < s.len() && in_class(s[i], k) {
        lemma_munch_range(s, i + 1, hi, k);
    }
}

/// A munch is pinned by its defining properties: if all of `[i, j)` is in the
/// class and `j` is `hi` or a byte outside it, the munch from `i` is `j`.
pub proof fn lemma_munch_exact(s: Seq<u8>, i: int, j: int, hi: int, k: CharClass)
    requires
        0 <= i <= j <= hi <= s.len(),
        forall|m: int| i <= m < j ==> in_class(s[m], k),
        j == hi || !in_class(s[j], k),
    ensures
        spec_munch(s, i, hi, k) == j,
    decreases j - i,
{
    if i < j {
        lemma_munch_exact(s, i + 1, j, hi, k);
    }
}

/// Whether byte `c` lies in class `k`.
pub fn char_in_class(c: u8, k: CharClass) -> (b: bool)
    ensures
        b == in_class(c, k),
{
    match k {
        CharClass::Ident => (0x61 <= c && c <= 0x7a) || (0x30 <= c && c <= 0x39) || c == UNDERSCORE,
        CharClass::Forma => (0x61 <= c && c <= 0x7a) || (0x41 <= c && c <= 0x5a) || (0x30 <= c
            && c <= 0x39),
        CharClass::Slug => (0x61 <= c && c <= 0x7a) || (0x41 <= c && c <= 0x5a) || (0x30 <= c && c
            <= 0x39) || c == DASH || c == DOT,
        CharClass::Space => c == SP || c == TAB,
        CharClass::NotNewline => c != NL,
        CharClass::NotSemi => c != SEMI,
    }
}

/// Scan forward from `i` over bytes of class `k`, stopping at `hi`: the
/// executable maximal munch.
pub fn munch(s: &Vec<u8>, i: usize, hi: usize, k: CharClass) -> (j: usize)
    requires
        i <= hi <= s@.len(),
    ensures
        j == spec_munch(s@, i as int, hi as int, k),
        i <= j <= hi,
{
    proof {
        lemma_munch(s@, i as int, hi as int, k);
    }
    let mut j = i;
    while j < hi && char_in_class(s[j], k)
        invariant
            i <= j <= hi <= s@.len(),
            spec_munch(s@, i as int, hi as int, k) == spec_munch(s@, j as int, hi as int, k),
        decreases hi - j,
    {
        j = j + 1;
    }
    j
}

/// Copy the bytes of `s[lo..hi]` into a fresh vector.
pub fn copy_range(s: &Vec<u8>, lo: usize, hi: usize) -> (v: Vec<u8>)
    requires
        lo <= hi <= s@.len(),
    ensures
        v@ == s@.subrange(lo as int, hi as int),
{
    let mut v: Vec<u8> = Vec::new();
    let mut j = lo;
    assert(v@ =~= s@.subrange(lo as int, lo as int));
    while j < hi
        invariant
            lo <= j <= hi <= s@.len(),
            v@ == s@.subrange(lo as int, j as int),
        decreases hi - j,
    {
        v.push(s[j]);
        j = j + 1;
        assert(v@ =~= s@.subrange(lo as int, j as int));
    }
    v
}

} // verus!
