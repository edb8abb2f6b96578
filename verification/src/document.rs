//! The document assembler: an optional SPDX line, an optional template line,
//! then declaration statements, with per-statement error recovery.

use vstd::prelude::*;

use crate::ast::Declaration;
use crate::ast::DeclarationV;
use crate::ast::Diagnostic;
use crate::ast::Document;
use crate::ast::DocumentV;
use crate::ast::GrammarError;
use crate::ast::GrammarErrorKind;
use crate::ast::ParseError;
use crate::ast::Severity;
use crate::ast::SpdxLine;
use crate::ast::SpdxLineV;
use crate::ast::TemplateLine;
use crate::ast::TemplateLineV;
use crate::ast::spec_diag;
use crate::chars::is_lower;
use crate::chars::is_space;
use crate::chars::lemma_munch;
use crate::chars::lemma_munch_range;
use crate::chars::munch;
use crate::chars::NL;
use crate::chars::spec_munch;
use crate::chars::CharClass;
use crate::chars::AMP;
use crate::chars::BANG;
use crate::decl::parse_declaration;
use crate::decl::spec_parse_declaration;
use crate::header::parse_spdx;
use crate::header::parse_template;
use crate::header::spec_parse_spdx;
use crate::header::spec_parse_template;

verus! {

/// End of the line that starts at `i`: the offset of its terminating line
/// feed, or the end of the buffer.
pub open spec fn line_end_of(s: Seq<u8>, i: int) -> int {
    spec_munch(s, i, s.len() as int, CharClass::NotNewline)
}

/// Start of the line after the one that starts at `i`.
pub open spec fn next_line(s: Seq<u8>, i: int) -> int {
    let e = line_end_of(s, i);
    if e < s.len() {
        e + 1
    } else {
        e
    }
}

/// Every byte of `[lo, hi)` is intra-line whitespace.
pub open spec fn is_blank_range(s: Seq<u8>, lo: int, hi: int) -> bool {
    forall|j: int| lo <= j < hi ==> is_space(s[j])
}

/// Start of the first non-blank line at or after `i`, or the end of the
/// buffer.
pub open spec fn spec_skip_blanks(s: Seq<u8>, i: int) -> int
    recommends
        0 <= i <= s.len(),
    decreases s.len() - i,
    via spec_skip_blanks_decreases
{
    if i >= s.len() {
        i
    } else if is_blank_range(s, i, line_end_of(s, i)) {
        spec_skip_blanks(s, next_line(s, i))
    } else {
        i
    }
}

#[via_fn]
proof fn spec_skip_blanks_decreases(s: Seq<u8>, i: int) {
    if i < s.len() {
        lemma_munch_range(s, i, s.len() as int, CharClass::NotNewline);
    }
}

/// Declarations and diagnostics of the statement lines from `i` on: blank
/// lines are skipped, a line starting with a lowercase letter is parsed as a
/// declaration, and any other line is one `UnrecognizedStatement`. Each
/// malformed statement yields exactly one diagnostic and parsing resumes at
/// the next line.
pub open spec fn spec_parse_body(s: Seq<u8>, i: int) -> (Seq<DeclarationV>, Seq<Diagnostic>)
    recommends
        0 <= i <= s.len(),
    decreases s.len() - i,
    via spec_parse_body_decreases
{
    if i >= s.len() {
        (Seq::<DeclarationV>::empty(), Seq::<Diagnostic>::empty())
    } else {
        let e = line_end_of(s, i);
        let rest = spec_parse_body(s, next_line(s, i));
        if is_blank_range(s, i, e) {
            rest
        } else if is_lower(s[i]) {
            match spec_parse_declaration(s, i, e) {
                Ok(d) => (seq![d] + rest.0, rest.1),
                Err(er) => (rest.0, seq![spec_diag(er)] + rest.1),
            }
        } else {
            (
                rest.0,
                seq![
                    spec_diag(
                        ParseError::Grammar(
                            GrammarError {
                                kind: GrammarErrorKind::UnrecognizedStatement,
                                offset: i as usize,
                            },
                        ),
                    ),
                ] + rest.1,
            )
        }
    }
}

#[via_fn]
proof fn spec_parse_body_decreases(s: Seq<u8>, i: int) {
    if i < s.len() {
        lemma_munch_range(s, i, s.len() as int, CharClass::NotNewline);
    }
}

/// The document and diagnostics once the header phase is done: the statement
/// lines from `i` on, behind the already-parsed header and its diagnostics.
pub open spec fn spec_parse_after_template(
    s: Seq<u8>,
    spdx: Option<SpdxLineV>,
    template: Option<TemplateLineV>,
    i: int,
    d: Seq<Diagnostic>,
) -> (DocumentV, Seq<Diagnostic>) {
    let body = spec_parse_body(s, i);
    (DocumentV { spdx, template, declarations: body.0 }, d + body.1)
}

/// The document and diagnostics once the SPDX phase is done: an optional
/// template line on the first non-blank line at or after `i`, then the
/// statement lines.
pub open spec fn spec_parse_after_spdx(
    s: Seq<u8>,
    spdx: Option<SpdxLineV>,
    i: int,
    d: Seq<Diagnostic>,
) -> (DocumentV, Seq<Diagnostic>) {
    let i1 = spec_skip_blanks(s, i);
    if i1 < s.len() && s[i1] == AMP {
        let e1 = line_end_of(s, i1);
        match spec_parse_template(s, i1, e1) {
            Ok(t) => spec_parse_after_template(s, spdx, Some(t), next_line(s, i1), d),
            Err(g) => spec_parse_after_template(
                s,
                spdx,
                None,
                next_line(s, i1),
                d + seq![spec_diag(ParseError::Grammar(g))],
            ),
        }
    } else {
        spec_parse_after_template(s, spdx, None, i1, d)
    }
}

/// Parse a whole document: an optional SPDX line on the first non-blank line,
/// an optional template line on the next non-blank line, then declaration
/// statements. Every recoverable failure becomes one diagnostic, in source
/// order, and parsing always continues at the next line.
pub open spec fn spec_parse_document(s: Seq<u8>) -> (DocumentV, Seq<Diagnostic>) {
    let i0 = spec_skip_blanks(s, 0);
    if i0 < s.len() && s[i0] == BANG {
        let e0 = line_end_of(s, i0);
        match spec_parse_spdx(s, i0, e0) {
            Ok(v) => spec_parse_after_spdx(s, Some(v), next_line(s, i0), Seq::<
                Diagnostic,
            >::empty()),
            Err(g) => spec_parse_after_spdx(
                s,
                None,
                next_line(s, i0),
                seq![spec_diag(ParseError::Grammar(g))],
            ),
        }
    } else {
        spec_parse_after_spdx(s, None, i0, Seq::<Diagnostic>::empty())
    }
}

/// One-based line and column of byte offset `off`: a line feed ends a line,
/// and the byte after it stands in column 1 of the next line.
pub open spec fn spec_line_col(s: Seq<u8>, off: int) -> (int, int)
    recommends
        0 <= off <= s.len(),
    decreases off,
{
    if off <= 0 {
        (1, 1)
    } else {
        let prev = spec_line_col(s, off - 1);
        if s[off - 1] == NL {
            (prev.0 + 1, 1)
        } else {
            (prev.0, prev.1 + 1)
        }
    }
}

/// One-based line and column of byte offset `off` in the source buffer.
pub fn line_col(s: &Vec<u8>, off: usize) -> (r: (usize, usize))
    requires
        off <= s@.len(),
        off < usize::MAX,
    ensures
        r.0 as int == spec_line_col(s@, off as int).0,
        r.1 as int == spec_line_col(s@, off as int).1,
{
    let mut line: usize = 1;
    let mut col: usize = 1;
    let mut k: usize = 0;
    while k < off
        invariant
            k <= off <= s@.len(),
            off < usize::MAX,
            line as int == spec_line_col(s@, k as int).0,
            col as int == spec_line_col(s@, k as int).1,
            line <= k + 1,
            col <= k + 1,
        decreases off - k,
    {
        if s[k] == NL {
            line = line + 1;
            col = 1;
        } else {
            col = col + 1;
        }
        k = k + 1;
    }
    (line, col)
}

/// Whether the bytes of `[lo, hi)` are all intra-line whitespace.
pub fn is_blank(s: &Vec<u8>, lo: usize, hi: usize) -> (b: bool)
    requires
        lo <= hi <= s@.len(),
    ensures
        b == is_blank_range(s@, lo as int, hi as int),
{
    let m = munch(s, lo, hi, CharClass::Space);
    proof {
        lemma_munch(s@, lo as int, hi as int, CharClass::Space);
    }
    m == hi
}

/// Start of the first non-blank line at or after `i`.
pub fn skip_blanks(s: &Vec<u8>, i: usize) -> (j: usize)
    requires
        i <= s@.len(),
    ensures
        j == spec_skip_blanks(s@, i as int),
        i <= j <= s@.len(),
{
    let n = s.len();
    let mut j = i;
    loop
        invariant
            i <= j <= n == s@.len(),
            spec_skip_blanks(s@, i as int) == spec_skip_blanks(s@, j as int),
        decreases n - j,
    {
        if j >= n {
            return j;
        }
        let e = munch(s, j, n, CharClass::NotNewline);
        if !is_blank(s, j, e) {
            return j;
        }
        j = if e < n {
            e + 1
        } else {
            e
        };
    }
}

/// Parse a whole source buffer into a document and its diagnostics, in source
/// order. Parsing never aborts on a recoverable failure: each failed header
/// line or statement line contributes one diagnostic and the walk continues
/// on the next line.
pub fn parse_document(source: &Vec<u8>) -> (r: (Document, Vec<Diagnostic>))
    ensures
        r.0@ == spec_parse_document(source@).0,
        r.1@ == spec_parse_document(source@).1,
{
    let n = source.len();
    let mut diags: Vec<Diagnostic> = Vec::new();

    // SPDX phase
    let i0 = skip_blanks(source, 0);
    let mut spdx: Option<SpdxLine> = None;
    let mut i: usize = i0;
    if i0 < n && source[i0] == BANG {
        let e0 = munch(source, i0, n, CharClass::NotNewline);
        proof {
            lemma_munch(source@, i0 as int, n as int, CharClass::NotNewline);
            if line_end_of(source@, i0 as int) == i0 as int {
                assert(false);
            }
        }
        match parse_spdx(source, i0, e0) {
            Ok(v) => spdx = Some(v),
            Err(g) => diags.push(
                Diagnostic { severity: Severity::Error, error: ParseError::Grammar(g) },
            ),
        }
        i = if e0 < n {
            e0 + 1
        } else {
            e0
        };
    }
    let ghost gspdx = match spdx {
        Some(ref v) => Some(v@),
        None => None,
    };
    assert(spec_parse_document(source@) == spec_parse_after_spdx(
        source@,
        gspdx,
        i as int,
        diags@,
    ));

    // template phase
    let i1 = skip_blanks(source, i);
    let mut template: Option<TemplateLine> = None;
    let mut j: usize = i1;
    if i1 < n && source[i1] == AMP {
        let e1 = munch(source, i1, n, CharClass::NotNewline);
        proof {
            lemma_munch(source@, i1 as int, n as int, CharClass::NotNewline);
            if line_end_of(source@, i1 as int) == i1 as int {
                assert(false);
            }
        }
        match parse_template(source, i1, e1) {
            Ok(t) => template = Some(t),
            Err(g) => diags.push(
                Diagnostic { severity: Severity::Error, error: ParseError::Grammar(g) },
            ),
        }
        j = if e1 < n {
            e1 + 1
        } else {
            e1
        };
    }
    let ghost gtemplate = match template {
        Some(ref t) => Some(t@),
        None => None,
    };
    assert(spec_parse_document(source@) == spec_parse_after_template(
        source@,
        gspdx,
        gtemplate,
        j as int,
        diags@,
    ));

    // statement phase
    let ghost hdiags = diags@;
    let ghost body = spec_parse_body(source@, j as int);
    let mut decls: Vec<Declaration> = Vec::new();
    let mut cur = j;
    while cur < n
        invariant
            j <= cur <= n == source@.len(),
            body == spec_parse_body(source@, j as int),
            diags@.len() >= hdiags.len(),
            diags@.subrange(0, hdiags.len() as int) == hdiags,
            body.0 == decls@.map_values(|d: Declaration| d@) + spec_parse_body(
                source@,
                cur as int,
            ).0,
            body.1 == diags@.subrange(hdiags.len() as int, diags@.len() as int) + spec_parse_body(
                source@,
                cur as int,
            ).1,
        decreases n - cur,
    {
        let ghost pre = spec_parse_body(source@, cur as int);
        let ghost rest = spec_parse_body(source@, next_line(source@, cur as int));
        let e = munch(source, cur, n, CharClass::NotNewline);
        let blank = is_blank(source, cur, e);
        if blank {
        } else if 0x61 <= source[cur] && source[cur] <= 0x7a {
            match parse_declaration(source, cur, e) {
                Ok(d) => {
                    assert(pre.0 == seq![d@] + rest.0);
                    decls.push(d);
                },
                Err(er) => {
                    diags.push(Diagnostic { severity: Severity::Error, error: er });
                },
            }
        } else {
            diags.push(
                Diagnostic {
                    severity: Severity::Error,
                    error: ParseError::Grammar(
                        GrammarError {
                            kind: GrammarErrorKind::UnrecognizedStatement,
                            offset: cur,
                        },
                    ),
                },
            );
        }
        cur = if e < n {
            e + 1
        } else {
            e
        };
        proof {
            assert(decls@.map_values(|d: Declaration| d@) + spec_parse_body(source@, cur as int).0
                =~= body.0);
            assert(diags@.subrange(0, hdiags.len() as int) =~= hdiags);
            assert(diags@.subrange(hdiags.len() as int, diags@.len() as int) + spec_parse_body(
                source@,
                cur as int,
            ).1 =~= body.1);
        }
    }
    proof {
        assert(spec_parse_body(source@, cur as int).0 =~= Seq::<DeclarationV>::empty());
        assert(spec_parse_body(source@, cur as int).1 =~= Seq::<Diagnostic>::empty());
        assert(decls@.map_values(|d: Declaration| d@) =~= body.0);
        assert(diags@.subrange(hdiags.len() as int, diags@.len() as int) =~= body.1);
        assert(diags@ =~= hdiags + body.1);
    }
    let doc = Document { spdx, template, declarations: decls };
    assert(doc@ == spec_parse_document(source@).0);
    assert(diags@ == spec_parse_document(source@).1);
    (doc, diags)
}

} // verus!
