//! The header parsers: the SPDX-style license/copyright line and the
//! template-reference line.

use vstd::prelude::*;

use crate::ast::wf_owner;
use crate::ast::wf_license;
use crate::ast::wf_year;
use crate::ast::is_slug_seq;
use crate::ast::Copyright;
use crate::ast::CopyrightV;
use crate::ast::GrammarError;
use crate::ast::GrammarErrorKind;
use crate::ast::SpdxLine;
use crate::ast::SpdxLineV;
use crate::ast::TemplateLine;
use crate::ast::TemplateLineV;
use crate::chars::copy_range;
use crate::chars::munch;
use crate::chars::spec_munch;
use crate::chars::CharClass;
use crate::chars::AMP;
use crate::chars::BANG;
use crate::chars::CLOWER;
use crate::chars::LPAREN;
use crate::chars::RPAREN;
use crate::chars::SP;
use crate::year::lex_year;
use crate::year::spec_lex_year;

verus! {

/// The text at `[cs, hi)` begins with a year token followed by one space and
/// at least one further byte: the shape that makes the copyright clause carry
/// an explicit year.
pub open spec fn year_then_owner(s: Seq<u8>, cs: int, hi: int) -> bool {
    &&& spec_lex_year(s, cs, hi) is Ok
    &&& spec_lex_year(s, cs, hi)->Ok_0.1 < hi
    &&& s[spec_lex_year(s, cs, hi)->Ok_0.1] == SP
    &&& spec_lex_year(s, cs, hi)->Ok_0.1 + 1 < hi
}

/// Parse the copyright clause standing at `[cs, hi)`: an optional year
/// followed by one space, then owner text to the end of the line. The clause
/// carries a year exactly when the text starts with a year token, a space and
/// a non-empty remainder; otherwise the whole text is the owner. Fails with
/// `MalformedSpdxLine` when the owner would be empty.
pub open spec fn spec_parse_copyright(s: Seq<u8>, cs: int, hi: int) -> Result<
    CopyrightV,
    GrammarError,
>
    recommends
        0 <= cs <= hi <= s.len(),
{
    if year_then_owner(s, cs, hi) {
        let e = spec_lex_year(s, cs, hi)->Ok_0.1;
        Ok(
            CopyrightV {
                year: Some(spec_lex_year(s, cs, hi)->Ok_0.0),
                owner: s.subrange(e + 1, hi),
            },
        )
    } else if cs < hi {
        Ok(CopyrightV { year: None, owner: s.subrange(cs, hi) })
    } else {
        Err(GrammarError { kind: GrammarErrorKind::MalformedSpdxLine, offset: cs as usize })
    }
}

/// Parse an SPDX header line standing at `[lo, hi)`, whose first byte is `!`.
/// Grammar: `!`, one space, license text to the first `;` or to the end of
/// the line; if a `;` follows the license, then a space, the marker `(c)`, a
/// space, and a copyright clause. Fails with `MalformedSpdxLine` when the
/// license is empty, when the `(c)` marker does not follow a `;`, or when the
/// owner is empty.
pub open spec fn spec_parse_spdx(s: Seq<u8>, lo: int, hi: int) -> Result<SpdxLineV, GrammarError>
    recommends
        0 <= lo <= hi <= s.len(),
        lo < hi && s[lo] == BANG,
{
    if lo + 2 > hi || s[lo + 1] != SP {
        Err(GrammarError { kind: GrammarErrorKind::MalformedSpdxLine, offset: (lo + 1) as usize })
    } else {
        let ls = lo + 2;
        let semi = spec_munch(s, ls, hi, CharClass::NotSemi);
        if semi == ls {
            Err(GrammarError { kind: GrammarErrorKind::MalformedSpdxLine, offset: ls as usize })
        } else {
            let license = s.subrange(ls, semi);
            if semi == hi {
                Ok(SpdxLineV { license, copyright: None })
            } else if semi + 6 <= hi && s[semi + 1] == SP && s[semi + 2] == LPAREN && s[semi + 3]
                == CLOWER && s[semi + 4] == RPAREN && s[semi + 5] == SP {
                match spec_parse_copyright(s, semi + 6, hi) {
                    Ok(c) => Ok(SpdxLineV { license, copyright: Some(c) }),
                    Err(e) => Err(e),
                }
            } else {
                Err(
                    GrammarError {
                        kind: GrammarErrorKind::MalformedSpdxLine,
                        offset: (semi + 1) as usize,
                    },
                )
            }
        }
    }
}

/// Parse an SPDX header line standing at `[lo, hi)`.
pub fn parse_spdx(s: &Vec<u8>, lo: usize, hi: usize) -> (r: Result<SpdxLine, GrammarError>)
    requires
        lo <= hi <= s@.len(),
        lo < hi,
        s@[lo as int] == BANG,
    ensures
        match r {
            Ok(v) => spec_parse_spdx(s@, lo as int, hi as int) == Ok::<SpdxLineV, GrammarError>(v@),
            Err(e) => spec_parse_spdx(s@, lo as int, hi as int) == Err::<SpdxLineV, GrammarError>(
                e,
            ),
        },
{
    if hi - lo < 2 || s[lo + 1] != SP {
        return Err(GrammarError { kind: GrammarErrorKind::MalformedSpdxLine, offset: lo + 1 });
    }
    let ls = lo + 2;
    let semi = munch(s, ls, hi, CharClass::NotSemi);
    if semi == ls {
        return Err(GrammarError { kind: GrammarErrorKind::MalformedSpdxLine, offset: ls });
    }
    let license = copy_range(s, ls, semi);
    if semi == hi {
        return Ok(SpdxLine { license, copyright: None });
    }
    if hi - semi >= 6 && s[semi + 1] == SP && s[semi + 2] == LPAREN && s[semi + 3] == CLOWER && s[semi
        + 4] == RPAREN && s[semi + 5] == SP {
        match parse_copyright(s, semi + 6, hi) {
            Ok(c) => Ok(SpdxLine { license, copyright: Some(c) }),
            Err(e) => Err(e),
        }
    } else {
        Err(GrammarError { kind: GrammarErrorKind::MalformedSpdxLine, offset: semi + 1 })
    }
}

/// Parse the copyright clause standing at `[cs, hi)`.
fn parse_copyright(s: &Vec<u8>, cs: usize, hi: usize) -> (r: Result<Copyright, GrammarError>)
    requires
        cs <= hi <= s@.len(),
    ensures
        match r {
            Ok(c) => spec_parse_copyright(s@, cs as int, hi as int) == Ok::<
                CopyrightV,
                GrammarError,
            >(c@),
            Err(e) => spec_parse_copyright(s@, cs as int, hi as int) == Err::<
                CopyrightV,
                GrammarError,
            >(e),
        },
{
    match lex_year(s, cs, hi) {
        Ok((y, e)) => {
            if e < hi && s[e] == SP && e + 1 < hi {
                let owner = copy_range(s, e + 1, hi);
                return Ok(Copyright { year: Some(y), owner });
            }
        },
        Err(_) => {},
    }
    assert(!year_then_owner(s@, cs as int, hi as int));
    if cs < hi {
        let owner = copy_range(s, cs, hi);
        Ok(Copyright { year: None, owner })
    } else {
        Err(GrammarError { kind: GrammarErrorKind::MalformedSpdxLine, offset: cs })
    }
}

/// Parse a template header line standing at `[lo, hi)`, whose first byte is
/// `&`. Grammar: `&`, one space, then a non-empty template name of letters,
/// digits, hyphens and dots, extending to the end of the line. Fails with
/// `MissingTemplateName`, at the position where the name should begin, when
/// the marker, the space or the name itself is missing, and with
/// `MalformedTemplateLine` at the first byte that a template name cannot
/// hold.
pub open spec fn spec_parse_template(s: Seq<u8>, lo: int, hi: int) -> Result<
    TemplateLineV,
    GrammarError,
>
    recommends
        0 <= lo <= hi <= s.len(),
        lo < hi && s[lo] == AMP,
{
    if lo + 1 >= hi || s[lo + 1] != SP {
        Err(GrammarError { kind: GrammarErrorKind::MissingTemplateName, offset: (lo + 1) as usize })
    } else if lo + 2 >= hi {
        Err(GrammarError { kind: GrammarErrorKind::MissingTemplateName, offset: (lo + 2) as usize })
    } else {
        let e = spec_munch(s, lo + 2, hi, CharClass::Slug);
        if e < hi {
            Err(GrammarError { kind: GrammarErrorKind::MalformedTemplateLine, offset: e as usize })
        } else {
            Ok(TemplateLineV { template: s.subrange(lo + 2, hi) })
        }
    }
}

/// Parse a template header line standing at `[lo, hi)`.
pub fn parse_template(s: &Vec<u8>, lo: usize, hi: usize) -> (r: Result<TemplateLine, GrammarError>)
    requires
        lo <= hi <= s@.len(),
        lo < hi,
        s@[lo as int] == AMP,
    ensures
        match r {
            Ok(t) => spec_parse_template(s@, lo as int, hi as int) == Ok::<
                TemplateLineV,
                GrammarError,
            >(t@),
            Err(e) => spec_parse_template(s@, lo as int, hi as int) == Err::<
                TemplateLineV,
                GrammarError,
            >(e),
        },
{
    if hi - lo <= 1 || s[lo + 1] != SP {
        Err(GrammarError { kind: GrammarErrorKind::MissingTemplateName, offset: lo + 1 })
    } else if hi - lo <= 2 {
        Err(GrammarError { kind: GrammarErrorKind::MissingTemplateName, offset: lo + 2 })
    } else {
        let e = munch(s, lo + 2, hi, CharClass::Slug);
        if e < hi {
            Err(GrammarError { kind: GrammarErrorKind::MalformedTemplateLine, offset: e })
        } else {
            let template = copy_range(s, lo + 2, hi);
            Ok(TemplateLine { template })
        }
    }
}

/// A well-formed copyright clause: the owner is non-empty, free of line
/// breaks, and when no year is recorded it does not itself begin like a year
/// followed by a space, so that nothing in it can be mistaken for a year; a
/// recorded year fits in four digits.
pub open spec fn wf_copyright(c: CopyrightV) -> bool {
    &&& wf_owner(c.owner)
    &&& match c.year {
        Some(y) => wf_year(y),
        None => !year_then_owner(c.owner, 0, c.owner.len() as int),
    }
}

/// A well-formed SPDX line: valid license text and, if present, a well-formed
/// copyright clause.
pub open spec fn wf_spdx(v: SpdxLineV) -> bool {
    &&& wf_license(v.license)
    &&& match v.copyright {
        Some(c) => wf_copyright(c),
        None => true,
    }
}

/// A well-formed template line: a non-empty slug.
pub open spec fn wf_template(t: TemplateLineV) -> bool {
    is_slug_seq(t.template)
}

} // verus!
