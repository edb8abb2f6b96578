//! The document model: identifiers, formas, years, signatures, declarations,
//! header lines, documents, and the diagnostic taxonomy, together with the
//! mathematical views and well-formedness predicates the contracts use.

use vstd::prelude::*;

use crate::chars::is_forma_char;
use crate::chars::is_ident_char;
use crate::chars::is_lower;
use crate::chars::is_slug_char;
use crate::chars::is_upper;
use crate::chars::NL;
use crate::chars::SEMI;

verus! {

/// A procedure name: bytes matching `[a-z][a-z0-9_]*`.
#[derive(Debug, PartialEq, Eq)]
pub struct Identifier {
    pub bytes: Vec<u8>,
}

impl View for Identifier {
    type V = Seq<u8>;

    open spec fn view(&self) -> Seq<u8> {
        self.bytes@
    }
}

/// A type-name token used in signatures: bytes matching `[A-Z][A-Za-z0-9]*`.
#[derive(Debug, PartialEq, Eq)]
pub struct Forma {
    pub bytes: Vec<u8>,
}

impl View for Forma {
    type V = Seq<u8>;

    open spec fn view(&self) -> Seq<u8> {
        self.bytes@
    }
}

/// A copyright year: a bare 4-digit year, an open range `YYYY-`, or a closed
/// range `YYYY-YYYY`.
#[derive(Clone, Copy, PartialEq, Eq, Structural, Debug)]
pub enum Year {
    Bare(u16),
    Open(u16),
    Closed(u16, u16),
}

/// The typed signature of a declaration: non-empty domain and range forma
/// lists joined by an arrow.
#[derive(Debug, PartialEq, Eq)]
pub struct Signature {
    pub domain: Vec<Forma>,
    pub range: Vec<Forma>,
}

/// Mathematical view of a signature: each forma as its byte sequence.
#[verifier::ext_equal]
pub ghost struct SignatureV {
    pub domain: Seq<Seq<u8>>,
    pub range: Seq<Seq<u8>>,
}

impl View for Signature {
    type V = SignatureV;

    open spec fn view(&self) -> SignatureV {
        SignatureV {
            domain: self.domain@.map_values(|f: Forma| f@),
            range: self.range@.map_values(|f: Forma| f@),
        }
    }
}

/// A procedure declaration: identifier, mandatory colon, optional signature.
#[derive(Debug, PartialEq, Eq)]
pub struct Declaration {
    pub identifier: Identifier,
    pub signature: Option<Signature>,
}

/// Mathematical view of a declaration.
#[verifier::ext_equal]
pub ghost struct DeclarationV {
    pub identifier: Seq<u8>,
    pub signature: Option<SignatureV>,
}

impl View for Declaration {
    type V = DeclarationV;

    open spec fn view(&self) -> DeclarationV {
        DeclarationV {
            identifier: self.identifier@,
            signature: match self.signature {
                Some(ref g) => Some(g@),
                None => None,
            },
        }
    }
}

/// The copyright clause of an SPDX line: optional year, mandatory owner text.
#[derive(Debug, PartialEq, Eq)]
pub struct Copyright {
    pub year: Option<Year>,
    pub owner: Vec<u8>,
}

/// Mathematical view of a copyright clause.
#[verifier::ext_equal]
pub ghost struct CopyrightV {
    pub year: Option<Year>,
    pub owner: Seq<u8>,
}

impl View for Copyright {
    type V = CopyrightV;

    open spec fn view(&self) -> CopyrightV {
        CopyrightV { year: self.year, owner: self.owner@ }
    }
}

/// An SPDX header line: mandatory license text, optional copyright clause.
#[derive(Debug, PartialEq, Eq)]
pub struct SpdxLine {
    pub license: Vec<u8>,
    pub copyright: Option<Copyright>,
}

/// Mathematical view of an SPDX line.
#[verifier::ext_equal]
pub ghost struct SpdxLineV {
    pub license: Seq<u8>,
    pub copyright: Option<CopyrightV>,
}

impl View for SpdxLine {
    type V = SpdxLineV;

    open spec fn view(&self) -> SpdxLineV {
        SpdxLineV {
            license: self.license@,
            copyright: match self.copyright {
                Some(ref c) => Some(c@),
                None => None,
            },
        }
    }
}

/// A template header line: the referenced template name.
#[derive(Debug, PartialEq, Eq)]
pub struct TemplateLine {
    pub template: Vec<u8>,
}

/// Mathematical view of a template line.
#[verifier::ext_equal]
pub ghost struct TemplateLineV {
    pub template: Seq<u8>,
}

impl View for TemplateLine {
    type V = TemplateLineV;

    open spec fn view(&self) -> TemplateLineV {
        TemplateLineV { template: self.template@ }
    }
}

/// A parsed document: optional SPDX line, optional template line, and the
/// declarations in document order.
#[derive(Debug, PartialEq, Eq)]
pub struct Document {
    pub spdx: Option<SpdxLine>,
    pub template: Option<TemplateLine>,
    pub declarations: Vec<Declaration>,
}

/// Mathematical view of a document.
#[verifier::ext_equal]
pub ghost struct DocumentV {
    pub spdx: Option<SpdxLineV>,
    pub template: Option<TemplateLineV>,
    pub declarations: Seq<DeclarationV>,
}

impl View for Document {
    type V = DocumentV;

    open spec fn view(&self) -> DocumentV {
        DocumentV {
            spdx: match self.spdx {
                Some(ref v) => Some(v@),
                None => None,
            },
            template: match self.template {
                Some(ref t) => Some(t@),
                None => None,
            },
            declarations: self.declarations@.map_values(|d: Declaration| d@),
        }
    }
}

/// A token-level mismatch.
#[derive(Clone, Copy, PartialEq, Eq, Structural, Debug)]
pub enum LexErrorKind {
    InvalidIdentifier,
    InvalidForma,
    InvalidYear,
}

/// A token-level failure at the byte offset where the failed token begins.
#[derive(Clone, Copy, PartialEq, Eq, Structural, Debug)]
pub struct LexError {
    pub kind: LexErrorKind,
    pub offset: usize,
}

/// A structural mismatch above the token level.
#[derive(Clone, Copy, PartialEq, Eq, Structural, Debug)]
pub enum GrammarErrorKind {
    MalformedSpdxLine,
    MissingTemplateName,
    MalformedTemplateLine,
    MissingColon,
    MissingArrow,
    MalformedSignature,
    UnrecognizedStatement,
}

/// A structural failure at the byte offset of the smallest construct that
/// failed.
#[derive(Clone, Copy, PartialEq, Eq, Structural, Debug)]
pub struct GrammarError {
    pub kind: GrammarErrorKind,
    pub offset: usize,
}

/// Any recoverable parse failure.
#[derive(Clone, Copy, PartialEq, Eq, Structural, Debug)]
pub enum ParseError {
    Lex(LexError),
    Grammar(GrammarError),
}

impl ParseError {
    /// Byte offset at which the failure was detected.
    pub open spec fn spec_offset(self) -> usize {
        match self {
            ParseError::Lex(e) => e.offset,
            ParseError::Grammar(e) => e.offset,
        }
    }

    /// Byte offset at which the failure was detected.
    pub fn offset(&self) -> (o: usize)
        ensures
            o == self.spec_offset(),
    {
        match self {
            ParseError::Lex(e) => e.offset,
            ParseError::Grammar(e) => e.offset,
        }
    }
}

/// How serious a diagnostic is.
#[derive(Clone, Copy, PartialEq, Eq, Structural, Debug)]
pub enum Severity {
    Warning,
    Error,
}

/// A position-tagged report of one parse failure.
#[derive(Clone, Copy, PartialEq, Eq, Structural, Debug)]
pub struct Diagnostic {
    pub severity: Severity,
    pub error: ParseError,
}

impl Diagnostic {
    /// Byte offset the diagnostic points at.
    pub open spec fn spec_offset(self) -> usize {
        self.error.spec_offset()
    }

    /// Byte offset the diagnostic points at.
    pub fn offset(&self) -> (o: usize)
        ensures
            o == self.spec_offset(),
    {
        self.error.offset()
    }
}

/// The error-severity diagnostic for a parse failure.
pub open spec fn spec_diag(e: ParseError) -> Diagnostic {
    Diagnostic { severity: Severity::Error, error: e }
}

/// A valid identifier: non-empty, leading lowercase letter, then lowercase
/// letters, digits or underscores.
pub open spec fn is_identifier_seq(s: Seq<u8>) -> bool {
    &&& s.len() > 0
    &&& is_lower(s[0])
    &&& forall|i: int| 0 <= i < s.len() ==> is_ident_char(s[i])
}

/// A valid forma: non-empty, leading uppercase letter, then letters or digits.
pub open spec fn is_forma_seq(s: Seq<u8>) -> bool {
    &&& s.len() > 0
    &&& is_upper(s[0])
    &&& forall|i: int| 0 <= i < s.len() ==> is_forma_char(s[i])
}

/// A valid template name: non-empty and made of slug bytes.
pub open spec fn is_slug_seq(s: Seq<u8>) -> bool {
    &&& s.len() > 0
    &&& forall|i: int| 0 <= i < s.len() ==> is_slug_char(s[i])
}

/// License text as serialization keeps it: non-empty, free of the statement
/// separator and of line breaks, and not starting with whitespace that the
/// line marker would absorb.
pub open spec fn wf_license(s: Seq<u8>) -> bool {
    &&& s.len() > 0
    &&& forall|i: int| 0 <= i < s.len() ==> s[i] != SEMI && s[i] != NL
}

/// Owner text: non-empty and free of line breaks.
pub open spec fn wf_owner(s: Seq<u8>) -> bool {
    &&& s.len() > 0
    &&& forall|i: int| 0 <= i < s.len() ==> s[i] != NL
}

/// A year value that four digits can carry.
pub open spec fn wf_year(y: Year) -> bool {
    match y {
        Year::Bare(v) => v <= 9999,
        Year::Open(v) => v <= 9999,
        Year::Closed(a, b) => a <= 9999 && b <= 9999,
    }
}

/// Every forma of the list is valid.
pub open spec fn wf_formas(l: Seq<Seq<u8>>) -> bool {
    forall|i: int| 0 <= i < l.len() ==> is_forma_seq(#[trigger] l[i])
}

/// A well-formed signature: non-empty valid domain and range lists.
pub open spec fn wf_signature(g: SignatureV) -> bool {
    &&& g.domain.len() > 0
    &&& g.range.len() > 0
    &&& wf_formas(g.domain)
    &&& wf_formas(g.range)
}

/// A well-formed declaration.
pub open spec fn wf_declaration(d: DeclarationV) -> bool {
    &&& is_identifier_seq(d.identifier)
    &&& match d.signature {
        Some(g) => wf_signature(g),
        None => true,
    }
}

} // verus!
