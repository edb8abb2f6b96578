//! The identifier and forma recognizers: maximal-munch token lexers and
//! whole-buffer recognizers.

use vstd::prelude::*;

use crate::ast::is_forma_seq;
use crate::ast::is_identifier_seq;
use crate::ast::Forma;
use crate::ast::Identifier;
use crate::ast::LexError;
use crate::ast::LexErrorKind;
use crate::chars::copy_range;
use crate::chars::in_class;
use crate::chars::is_lower;
use crate::chars::is_upper;
use crate::chars::lemma_munch;
use crate::chars::munch;
use crate::chars::spec_munch;
use crate::chars::CharClass;

verus! {

/// Lex an identifier at offset `lo` of the window `[lo, hi)`: the longest
/// match of `[a-z][a-z0-9_]*`. Fails with `InvalidIdentifier` at `lo` when
/// the byte there is not a lowercase letter, including on an empty window.
/// On success returns the matched bytes and the offset just past them.
pub open spec fn spec_lex_identifier(s: Seq<u8>, lo: int, hi: int) -> Result<
    (Seq<u8>, int),
    LexError,
>
    recommends
        0 <= lo <= hi <= s.len(),
{
    if lo < hi && is_lower(s[lo]) {
        let e = spec_munch(s, lo, hi, CharClass::Ident);
        Ok((s.subrange(lo, e), e))
    } else {
        Err(LexError { kind: LexErrorKind::InvalidIdentifier, offset: lo as usize })
    }
}

/// What a successful identifier lex yields: a valid identifier that stands
/// exactly at `lo` and cannot be extended by the next byte.
pub proof fn lemma_lex_identifier(s: Seq<u8>, lo: int, hi: int)
    requires
        0 <= lo <= hi <= s.len(),
    ensures
        spec_lex_identifier(s, lo, hi) matches Ok((id, e)) ==> {
            &&& lo < e <= hi
            &&& id == s.subrange(lo, e)
            &&& is_identifier_seq(id)
            &&& e == hi || !in_class(s[e], CharClass::Ident)
        },
        spec_lex_identifier(s, lo, hi) is Err <==> (lo >= hi || !is_lower(s[lo])),
{
    if lo < hi && is_lower(s[lo]) {
        lemma_munch(s, lo, hi, CharClass::Ident);
        let e = spec_munch(s, lo, hi, CharClass::Ident);
        let id = s.subrange(lo, e);
        assert(forall|i: int| 0 <= i < id.len() ==> id[i] == s[lo + i]);
    }
}

/// Lex an identifier at offset `lo` of the window `[lo, hi)`.
pub fn lex_identifier(s: &Vec<u8>, lo: usize, hi: usize) -> (r: Result<
    (Identifier, usize),
    LexError,
>)
    requires
        lo <= hi <= s@.len(),
    ensures
        match r {
            Ok((id, e)) => spec_lex_identifier(s@, lo as int, hi as int) == Ok::<
                (Seq<u8>, int),
                LexError,
            >((id@, e as int)) && lo < e <= hi,
            Err(er) => spec_lex_identifier(s@, lo as int, hi as int) == Err::<
                (Seq<u8>, int),
                LexError,
            >(er),
        },
{
    proof {
        lemma_lex_identifier(s@, lo as int, hi as int);
    }
    if lo < hi && 0x61 <= s[lo] && s[lo] <= 0x7a {
        let e = munch(s, lo, hi, CharClass::Ident);
        let bytes = copy_range(s, lo, e);
        Ok((Identifier { bytes }, e))
    } else {
        Err(LexError { kind: LexErrorKind::InvalidIdentifier, offset: lo })
    }
}

/// Result of recognizing a whole buffer as one identifier. The buffer is
/// accepted exactly when it matches `[a-z][a-z0-9_]*` and is non-empty;
/// rejection is `InvalidIdentifier` at offset 0 when the leading byte is
/// wrong and at the first disallowed byte otherwise.
pub open spec fn spec_recognize_identifier(s: Seq<u8>) -> Result<Seq<u8>, LexError> {
    match spec_lex_identifier(s, 0, s.len() as int) {
        Ok((id, e)) => if e == s.len() {
            Ok(id)
        } else {
            Err(LexError { kind: LexErrorKind::InvalidIdentifier, offset: e as usize })
        },
        Err(er) => Err(er),
    }
}

/// Recognize the whole buffer as one identifier: accepted if and only if it
/// is non-empty, starts with a lowercase letter, and continues with lowercase
/// letters, digits or underscores.
pub fn recognize_identifier(s: &Vec<u8>) -> (r: Result<Identifier, LexError>)
    ensures
        r matches Ok(id) ==> id@ == s@ && spec_recognize_identifier(s@) == Ok::<Seq<u8>, LexError>(
            s@,
        ),
        r matches Err(er) ==> spec_recognize_identifier(s@) == Err::<Seq<u8>, LexError>(er),
        r is Ok <==> is_identifier_seq(s@),
{
    proof {
        lemma_lex_identifier(s@, 0, s@.len() as int);
        lemma_munch(s@, 0, s@.len() as int, CharClass::Ident);
        if is_identifier_seq(s@) {
            crate::chars::lemma_munch_exact(
                s@,
                0,
                s@.len() as int,
                s@.len() as int,
                CharClass::Ident,
            );
        }
    }
    match lex_identifier(s, 0, s.len()) {
        Ok((id, e)) => {
            if e == s.len() {
                assert(id@ =~= s@);
                Ok(id)
            } else {
                Err(LexError { kind: LexErrorKind::InvalidIdentifier, offset: e })
            }
        },
        Err(er) => Err(er),
    }
}

/// Lex a forma at offset `lo` of the window `[lo, hi)`: the longest match of
/// `[A-Z][A-Za-z0-9]*`. Fails with `InvalidForma` at `lo` when the byte there
/// is not an uppercase letter.
pub open spec fn spec_lex_forma(s: Seq<u8>, lo: int, hi: int) -> Result<(Seq<u8>, int), LexError>
    recommends
        0 <= lo <= hi <= s.len(),
{
    if lo < hi && is_upper(s[lo]) {
        let e = spec_munch(s, lo, hi, CharClass::Forma);
        Ok((s.subrange(lo, e), e))
    } else {
        Err(LexError { kind: LexErrorKind::InvalidForma, offset: lo as usize })
    }
}

/// What a successful forma lex yields.
pub proof fn lemma_lex_forma(s: Seq<u8>, lo: int, hi: int)
    requires
        0 <= lo <= hi <= s.len(),
    ensures
        spec_lex_forma(s, lo, hi) matches Ok((f, e)) ==> {
            &&& lo < e <= hi
            &&& f == s.subrange(lo, e)
            &&& is_forma_seq(f)
            &&& e == hi || !in_class(s[e], CharClass::Forma)
        },
        spec_lex_forma(s, lo, hi) is Err <==> (lo >= hi || !is_upper(s[lo])),
{
    if lo < hi && is_upper(s[lo]) {
        lemma_munch(s, lo, hi, CharClass::Forma);
        let e = spec_munch(s, lo, hi, CharClass::Forma);
        let f = s.subrange(lo, e);
        assert(forall|i: int| 0 <= i < f.len() ==> f[i] == s[lo + i]);
    }
}

/// Lex a forma at offset `lo` of the window `[lo, hi)`.
pub fn lex_forma(s: &Vec<u8>, lo: usize, hi: usize) -> (r: Result<(Forma, usize), LexError>)
    requires
        lo <= hi <= s@.len(),
    ensures
        match r {
            Ok((f, e)) => spec_lex_forma(s@, lo as int, hi as int) == Ok::<
                (Seq<u8>, int),
                LexError,
            >((f@, e as int)) && lo < e <= hi,
            Err(er) => spec_lex_forma(s@, lo as int, hi as int) == Err::<(Seq<u8>, int), LexError>(
                er,
            ),
        },
{
    proof {
        lemma_lex_forma(s@, lo as int, hi as int);
    }
    if lo < hi && 0x41 <= s[lo] && s[lo] <= 0x5a {
        let e = munch(s, lo, hi, CharClass::Forma);
        let bytes = copy_range(s, lo, e);
        Ok((Forma { bytes }, e))
    } else {
        Err(LexError { kind: LexErrorKind::InvalidForma, offset: lo })
    }
}

/// Recognize the whole buffer as one forma: accepted if and only if it is
/// non-empty, starts with an uppercase letter, and continues with letters or
/// digits.
pub fn recognize_forma(s: &Vec<u8>) -> (r: Result<Forma, LexError>)
    ensures
        r matches Ok(f) ==> f@ == s@,
        r is Ok <==> is_forma_seq(s@),
{
    proof {
        lemma_lex_forma(s@, 0, s@.len() as int);
        lemma_munch(s@, 0, s@.len() as int, CharClass::Forma);
        if is_forma_seq(s@) {
            crate::chars::lemma_munch_exact(
                s@,
                0,
                s@.len() as int,
                s@.len() as int,
                CharClass::Forma,
            );
        }
    }
    match lex_forma(s, 0, s.len()) {
        Ok((f, e)) => {
            if e == s.len() {
                assert(f@ =~= s@);
                Ok(f)
            } else {
                Err(LexError { kind: LexErrorKind::InvalidForma, offset: e })
            }
        },
        Err(er) => Err(er),
    }
}

} // verus!
