//! The declaration parser: an identifier, a mandatory colon, and an optional
//! typed signature of comma-separated forma lists joined by an arrow.

use vstd::prelude::*;

use crate::ast::DeclarationV;
use crate::ast::Declaration;
use crate::ast::Forma;
use crate::ast::GrammarError;
use crate::ast::GrammarErrorKind;
use crate::ast::LexError;
use crate::ast::LexErrorKind;
use crate::ast::ParseError;
use crate::ast::Signature;
use crate::ast::SignatureV;
use crate::chars::is_space;
use crate::chars::lemma_munch;
use crate::chars::munch;
use crate::chars::spec_munch;
use crate::chars::CharClass;
use crate::chars::COLON;
use crate::chars::COMMA;
use crate::chars::DASH;
use crate::chars::GT;
use crate::ident::lemma_lex_forma;
use crate::ident::lex_forma;
use crate::ident::lex_identifier;
use crate::ident::spec_lex_forma;
use crate::ident::spec_lex_identifier;

verus! {

/// Parse a comma-separated, non-empty forma list at `i` of `[i, hi)`.
/// Whitespace may stand around the separating commas. On success returns the
/// formas and the offset just past the last one (before any trailing
/// whitespace). Fails with `InvalidForma` at the position where a forma was
/// expected and none stands.
pub open spec fn spec_parse_formas(s: Seq<u8>, i: int, hi: int) -> Result<
    (Seq<Seq<u8>>, int),
    ParseError,
>
    recommends
        0 <= i <= hi <= s.len(),
    decreases hi - i,
    via spec_parse_formas_decreases
{
    match spec_lex_forma(s, i, hi) {
        Err(e) => Err(ParseError::Lex(e)),
        Ok((f, e)) => {
            let a = spec_munch(s, e, hi, CharClass::Space);
            if a < hi && s[a] == COMMA {
                let b = spec_munch(s, a + 1, hi, CharClass::Space);
                match spec_parse_formas(s, b, hi) {
                    Ok((rest, end)) => Ok((seq![f] + rest, end)),
                    Err(er) => Err(er),
                }
            } else {
                Ok((seq![f], e))
            }
        },
    }
}

#[via_fn]
proof fn spec_parse_formas_decreases(s: Seq<u8>, i: int, hi: int) {
    match spec_lex_forma(s, i, hi) {
        Ok(_) => {
            crate::chars::lemma_munch_range(s, i, hi, CharClass::Forma);
            let e = spec_munch(s, i, hi, CharClass::Forma);
            crate::chars::lemma_munch_range(s, e, hi, CharClass::Space);
            let a = spec_munch(s, e, hi, CharClass::Space);
            if a < hi && s[a] == COMMA {
                crate::chars::lemma_munch_range(s, a + 1, hi, CharClass::Space);
            }
        },
        Err(_) => {},
    }
}

/// Bounds of a successful forma-list parse: it begins past `i` and ends by
/// `hi`, and yields at least one forma, each of them non-empty.
pub proof fn lemma_parse_formas_bounds(s: Seq<u8>, i: int, hi: int)
    requires
        0 <= i <= hi <= s.len(),
    ensures
        spec_parse_formas(s, i, hi) matches Ok((l, end)) ==> {
            &&& i < end <= hi
            &&& l.len() >= 1
        },
    decreases hi - i,
{
    lemma_lex_forma(s, i, hi);
    match spec_lex_forma(s, i, hi) {
        Ok((f, e)) => {
            lemma_munch(s, e, hi, CharClass::Space);
            let a = spec_munch(s, e, hi, CharClass::Space);
            if a < hi && s[a] == COMMA {
                lemma_munch(s, a + 1, hi, CharClass::Space);
                let b = spec_munch(s, a + 1, hi, CharClass::Space);
                lemma_parse_formas_bounds(s, b, hi);
            }
        },
        Err(_) => {},
    }
}

/// Parse a comma-separated forma list at `i` of `[i, hi)`.
pub fn parse_formas(s: &Vec<u8>, i: usize, hi: usize) -> (r: Result<(Vec<Forma>, usize), ParseError>)
    requires
        i <= hi <= s@.len(),
    ensures
        match r {
            Ok((l, end)) => spec_parse_formas(s@, i as int, hi as int) == Ok::<
                (Seq<Seq<u8>>, int),
                ParseError,
            >((l@.map_values(|f: Forma| f@), end as int)) && i < end <= hi,
            Err(er) => spec_parse_formas(s@, i as int, hi as int) == Err::<
                (Seq<Seq<u8>>, int),
                ParseError,
            >(er),
        },
    decreases hi - i,
{
    proof {
        lemma_parse_formas_bounds(s@, i as int, hi as int);
    }
    match lex_forma(s, i, hi) {
        Err(e) => Err(ParseError::Lex(e)),
        Ok((f, e)) => {
            let a = munch(s, e, hi, CharClass::Space);
            if a < hi && s[a] == COMMA {
                let b = munch(s, a + 1, hi, CharClass::Space);
                match parse_formas(s, b, hi) {
                    Ok((rest, end)) => {
                        let ghost grest = rest@.map_values(|x: Forma| x@);
                        let mut l = rest;
                        l.insert(0, f);
                        assert(l@.map_values(|x: Forma| x@) =~= seq![f@] + grest);
                        Ok((l, end))
                    },
                    Err(er) => Err(er),
                }
            } else {
                let mut l: Vec<Forma> = Vec::new();
                l.push(f);
                assert(l@.map_values(|x: Forma| x@) =~= seq![f@]);
                Ok((l, e))
            }
        },
    }
}

/// Parse a signature standing at `q` of `[q, hi)` and filling the window: a
/// domain forma list, the arrow `->`, and a range forma list, with optional
/// whitespace around the arrow and after the range. Fails with `MissingArrow`
/// where the arrow should stand and with `MalformedSignature` at the first
/// trailing byte after the range.
pub open spec fn spec_parse_signature(s: Seq<u8>, q: int, hi: int) -> Result<SignatureV, ParseError>
    recommends
        0 <= q <= hi <= s.len(),
{
    match spec_parse_formas(s, q, hi) {
        Err(e) => Err(e),
        Ok((domain, de)) => {
            let a = spec_munch(s, de, hi, CharClass::Space);
            if a + 2 <= hi && s[a] == DASH && s[a + 1] == GT {
                let r = spec_munch(s, a + 2, hi, CharClass::Space);
                match spec_parse_formas(s, r, hi) {
                    Err(e) => Err(e),
                    Ok((range, re)) => {
                        let t = spec_munch(s, re, hi, CharClass::Space);
                        if t == hi {
                            Ok(SignatureV { domain, range })
                        } else {
                            Err(
                                ParseError::Grammar(
                                    GrammarError {
                                        kind: GrammarErrorKind::MalformedSignature,
                                        offset: t as usize,
                                    },
                                ),
                            )
                        }
                    },
                }
            } else {
                Err(
                    ParseError::Grammar(
                        GrammarError { kind: GrammarErrorKind::MissingArrow, offset: a as usize },
                    ),
                )
            }
        },
    }
}

/// Parse a signature standing at `q` of `[q, hi)`.
pub fn parse_signature(s: &Vec<u8>, q: usize, hi: usize) -> (r: Result<Signature, ParseError>)
    requires
        q <= hi <= s@.len(),
    ensures
        match r {
            Ok(g) => spec_parse_signature(s@, q as int, hi as int) == Ok::<SignatureV, ParseError>(
                g@,
            ),
            Err(er) => spec_parse_signature(s@, q as int, hi as int) == Err::<
                SignatureV,
                ParseError,
            >(er),
        },
{
    match parse_formas(s, q, hi) {
        Err(e) => Err(e),
        Ok((domain, de)) => {
            let a = munch(s, de, hi, CharClass::Space);
            if hi - a >= 2 && s[a] == DASH && s[a + 1] == GT {
                let r = munch(s, a + 2, hi, CharClass::Space);
                match parse_formas(s, r, hi) {
                    Err(e) => Err(e),
                    Ok((range, re)) => {
                        let t = munch(s, re, hi, CharClass::Space);
                        if t == hi {
                            Ok(Signature { domain, range })
                        } else {
                            Err(
                                ParseError::Grammar(
                                    GrammarError {
                                        kind: GrammarErrorKind::MalformedSignature,
                                        offset: t,
                                    },
                                ),
                            )
                        }
                    },
                }
            } else {
                Err(
                    ParseError::Grammar(
                        GrammarError { kind: GrammarErrorKind::MissingArrow, offset: a },
                    ),
                )
            }
        },
    }
}

/// Parse a declaration filling the window `[lo, hi)`: an identifier, optional
/// whitespace, a colon, and optionally whitespace followed by a signature.
/// When the identifier token is followed by a byte that neither ends it nor
/// separates it (such as the hyphen of `cook-pizza`), the whole statement is
/// invalid: the parse fails with `InvalidIdentifier` at `lo`, the start of
/// the statement. A missing colon fails with `MissingColon` where the colon
/// should stand.
pub open spec fn spec_parse_declaration(s: Seq<u8>, lo: int, hi: int) -> Result<
    DeclarationV,
    ParseError,
>
    recommends
        0 <= lo <= hi <= s.len(),
{
    match spec_lex_identifier(s, lo, hi) {
        Err(e) => Err(ParseError::Lex(e)),
        Ok((id, ie)) => {
            if ie < hi && !is_space(s[ie]) && s[ie] != COLON {
                Err(
                    ParseError::Lex(
                        LexError { kind: LexErrorKind::InvalidIdentifier, offset: lo as usize },
                    ),
                )
            } else {
                let p = spec_munch(s, ie, hi, CharClass::Space);
                if p >= hi || s[p] != COLON {
                    Err(
                        ParseError::Grammar(
                            GrammarError {
                                kind: GrammarErrorKind::MissingColon,
                                offset: p as usize,
                            },
                        ),
                    )
                } else {
                    let q = spec_munch(s, p + 1, hi, CharClass::Space);
                    if q >= hi {
                        Ok(DeclarationV { identifier: id, signature: None })
                    } else {
                        match spec_parse_signature(s, q, hi) {
                            Ok(g) => Ok(DeclarationV { identifier: id, signature: Some(g) }),
                            Err(e) => Err(e),
                        }
                    }
                }
            }
        },
    }
}

/// Parse a declaration filling the window `[lo, hi)`.
pub fn parse_declaration(s: &Vec<u8>, lo: usize, hi: usize) -> (r: Result<Declaration, ParseError>)
    requires
        lo <= hi <= s@.len(),
    ensures
        match r {
            Ok(d) => spec_parse_declaration(s@, lo as int, hi as int) == Ok::<
                DeclarationV,
                ParseError,
            >(d@),
            Err(er) => spec_parse_declaration(s@, lo as int, hi as int) == Err::<
                DeclarationV,
                ParseError,
            >(er),
        },
{
    match lex_identifier(s, lo, hi) {
        Err(e) => Err(ParseError::Lex(e)),
        Ok((id, ie)) => {
            if ie < hi && !(s[ie] == 0x20 || s[ie] == 0x09) && s[ie] != COLON {
                Err(
                    ParseError::Lex(
                        LexError { kind: LexErrorKind::InvalidIdentifier, offset: lo },
                    ),
                )
            } else {
                let p = munch(s, ie, hi, CharClass::Space);
                if p >= hi || s[p] != COLON {
                    Err(
                        ParseError::Grammar(
                            GrammarError { kind: GrammarErrorKind::MissingColon, offset: p },
                        ),
                    )
                } else {
                    let q = munch(s, p + 1, hi, CharClass::Space);
                    if q >= hi {
                        Ok(Declaration { identifier: id, signature: None })
                    } else {
                        match parse_signature(s, q, hi) {
                            Ok(g) => Ok(Declaration { identifier: id, signature: Some(g) }),
                            Err(e) => Err(e),
                        }
                    }
                }
            }
        },
    }
}

/// Parse a whole buffer as one declaration statement.
pub fn parse_declaration_line(s: &Vec<u8>) -> (r: Result<Declaration, ParseError>)
    ensures
        match r {
            Ok(d) => spec_parse_declaration(s@, 0, s@.len() as int) == Ok::<
                DeclarationV,
                ParseError,
            >(d@),
            Err(er) => spec_parse_declaration(s@, 0, s@.len() as int) == Err::<
                DeclarationV,
                ParseError,
            >(er),
        },
{
    parse_declaration(s, 0, s.len())
}

} // verus!
