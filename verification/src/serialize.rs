//! Canonical serialization of a document: one line per header and per
//! declaration, single spaces, `, ` between formas and ` -> ` between the
//! lists, each line closed by a line feed.

use vstd::prelude::*;

use crate::ast::wf_declaration;
use crate::ast::Declaration;
use crate::ast::DeclarationV;
use crate::ast::Document;
use crate::ast::DocumentV;
use crate::ast::Forma;
use crate::ast::SignatureV;
use crate::ast::CopyrightV;
use crate::ast::SpdxLineV;
use crate::ast::TemplateLineV;
use crate::ast::Year;
use crate::chars::AMP;
use crate::chars::BANG;
use crate::chars::CLOWER;
use crate::chars::COLON;
use crate::chars::COMMA;
use crate::chars::DASH;
use crate::chars::GT;
use crate::chars::LPAREN;
use crate::chars::NL;
use crate::chars::RPAREN;
use crate::chars::SEMI;
use crate::chars::SP;
use crate::header::wf_spdx;
use crate::header::wf_template;

verus! {

/// A document every part of which the canonical form can carry faithfully.
pub open spec fn wf_document(d: DocumentV) -> bool {
    &&& match d.spdx {
        Some(v) => wf_spdx(v),
        None => true,
    }
    &&& match d.template {
        Some(t) => wf_template(t),
        None => true,
    }
    &&& forall|i: int| 0 <= i < d.declarations.len() ==> wf_declaration(
        #[trigger] d.declarations[i],
    )
}

/// The four decimal digits of `v`, most significant first.
pub open spec fn digits4(v: u16) -> Seq<u8>
    recommends
        v <= 9999,
{
    seq![
        (0x30 + v as int / 1000) as u8,
        (0x30 + (v as int / 100) % 10) as u8,
        (0x30 + (v as int / 10) % 10) as u8,
        (0x30 + v as int % 10) as u8,
    ]
}

/// Canonical form of a year: `YYYY`, `YYYY-` or `YYYY-YYYY`.
pub open spec fn ser_year(y: Year) -> Seq<u8> {
    match y {
        Year::Bare(v) => digits4(v),
        Year::Open(v) => digits4(v) + seq![DASH],
        Year::Closed(a, b) => digits4(a) + seq![DASH] + digits4(b),
    }
}

/// Canonical form of a forma list: the formas joined by `, `.
pub open spec fn ser_formas(l: Seq<Seq<u8>>) -> Seq<u8>
    decreases l.len(),
{
    if l.len() == 0 {
        Seq::<u8>::empty()
    } else if l.len() == 1 {
        l[0]
    } else {
        l[0] + seq![COMMA, SP] + ser_formas(l.drop_first())
    }
}

/// Canonical form of a signature: domain, ` -> `, range.
pub open spec fn ser_signature(g: SignatureV) -> Seq<u8> {
    ser_formas(g.domain) + seq![SP, DASH, GT, SP] + ser_formas(g.range)
}

/// Canonical form of a declaration line: the identifier, ` :`, and the
/// signature after one space if there is one.
pub open spec fn ser_declaration(d: DeclarationV) -> Seq<u8> {
    d.identifier + seq![SP, COLON] + (match d.signature {
        Some(g) => seq![SP] + ser_signature(g),
        None => Seq::<u8>::empty(),
    })
}

/// Canonical form of a copyright clause: the year and one space if there is
/// a year, then the owner.
pub open spec fn ser_copyright(c: CopyrightV) -> Seq<u8> {
    (match c.year {
        Some(y) => ser_year(y) + seq![SP],
        None => Seq::<u8>::empty(),
    }) + c.owner
}

/// Canonical form of an SPDX line: `! `, the license, and `; (c) ` with the
/// copyright clause if there is one.
pub open spec fn ser_spdx(v: SpdxLineV) -> Seq<u8> {
    seq![BANG, SP] + v.license + (match v.copyright {
        Some(c) => seq![SEMI, SP, LPAREN, CLOWER, RPAREN, SP] + ser_copyright(c),
        None => Seq::<u8>::empty(),
    })
}

/// Canonical form of a template line: `& ` and the template name.
pub open spec fn ser_template(t: TemplateLineV) -> Seq<u8> {
    seq![AMP, SP] + t.template
}

/// Canonical form of the declarations: one line each, each closed by a line
/// feed.
pub open spec fn ser_decls(l: Seq<DeclarationV>) -> Seq<u8>
    decreases l.len(),
{
    if l.len() == 0 {
        Seq::<u8>::empty()
    } else {
        ser_declaration(l[0]) + seq![NL] + ser_decls(l.drop_first())
    }
}

/// Canonical form of a document: the header lines that are present, then the
/// declarations, every line closed by a line feed.
pub open spec fn ser_document(d: DocumentV) -> Seq<u8> {
    (match d.spdx {
        Some(v) => ser_spdx(v) + seq![NL],
        None => Seq::<u8>::empty(),
    }) + (match d.template {
        Some(t) => ser_template(t) + seq![NL],
        None => Seq::<u8>::empty(),
    }) + ser_decls(d.declarations)
}

/// Parse a source buffer and render the document it describes back in
/// canonical form, together with the diagnostics of the parse. Because every
/// parsed document is well formed, this needs nothing of the caller.
pub fn parse_and_format(source: &Vec<u8>) -> (r: (Vec<u8>, Vec<crate::ast::Diagnostic>))
    ensures
        r.0@ == ser_document(crate::document::spec_parse_document(source@).0),
        r.1@ == crate::document::spec_parse_document(source@).1,
{
    let (doc, diags) = crate::document::parse_document(source);
    proof {
        crate::laws::lemma_parse_document_wf(source@);
    }
    let out = serialize_document(&doc);
    (out, diags)
}

/// Append the bytes of `src` to `out`.
fn write_bytes(out: &mut Vec<u8>, src: &Vec<u8>)
    ensures
        final(out)@ == old(out)@ + src@,
{
    let mut k: usize = 0;
    assert(out@ =~= old(out)@ + src@.subrange(0, 0));
    while k < src.len()
        invariant
            k <= src@.len(),
            out@ == old(out)@ + src@.subrange(0, k as int),
        decreases src@.len() - k,
    {
        out.push(src[k]);
        k = k + 1;
        assert(out@ =~= old(out)@ + src@.subrange(0, k as int));
    }
    assert(src@.subrange(0, src@.len() as int) =~= src@);
}

/// Append the four digits of `v` to `out`.
fn write_year_digits(out: &mut Vec<u8>, v: u16)
    requires
        v <= 9999,
    ensures
        final(out)@ == old(out)@ + digits4(v),
{
    out.push(0x30 + (v / 1000) as u8);
    out.push(0x30 + ((v / 100) % 10) as u8);
    out.push(0x30 + ((v / 10) % 10) as u8);
    out.push(0x30 + (v % 10) as u8);
    assert(out@ =~= old(out)@ + digits4(v));
}

/// Append the canonical form of a year to `out`.
fn write_year(out: &mut Vec<u8>, y: Year)
    requires
        crate::ast::wf_year(y),
    ensures
        final(out)@ == old(out)@ + ser_year(y),
{
    match y {
        Year::Bare(v) => {
            write_year_digits(out, v);
        },
        Year::Open(v) => {
            write_year_digits(out, v);
            out.push(DASH);
            assert(out@ =~= old(out)@ + ser_year(y));
        },
        Year::Closed(a, b) => {
            write_year_digits(out, a);
            out.push(DASH);
            write_year_digits(out, b);
            assert(out@ =~= old(out)@ + ser_year(y));
        },
    }
}

/// Append the canonical form of the forma list from index `k` on to `out`.
fn write_formas(out: &mut Vec<u8>, l: &Vec<Forma>, k: usize)
    requires
        k < l@.len(),
    ensures
        final(out)@ == old(out)@ + ser_formas(l@.map_values(|f: Forma| f@).skip(k as int)),
    decreases l@.len() - k,
{
    let ghost m = l@.map_values(|f: Forma| f@);
    write_bytes(out, &l[k].bytes);
    if l.len() - k > 1 {
        out.push(COMMA);
        out.push(SP);
        write_formas(out, l, k + 1);
        proof {
            assert(m.skip(k as int).drop_first() =~= m.skip(k as int + 1));
            assert(out@ =~= old(out)@ + ser_formas(m.skip(k as int)));
        }
    } else {
        proof {
            assert(m.skip(k as int).len() == 1);
            assert(m.skip(k as int)[0] == m[k as int]);
            assert(out@ =~= old(out)@ + ser_formas(m.skip(k as int)));
        }
    }
}

/// Append the canonical form of a declaration line, without its closing line
/// feed, to `out`.
fn write_declaration(out: &mut Vec<u8>, d: &Declaration)
    requires
        wf_declaration(d@),
    ensures
        final(out)@ == old(out)@ + ser_declaration(d@),
{
    write_bytes(out, &d.identifier.bytes);
    out.push(SP);
    out.push(COLON);
    match d.signature {
        Some(ref g) => {
            out.push(SP);
            write_formas(out, &g.domain, 0);
            proof {
                assert(g.domain@.map_values(|f: Forma| f@).skip(0) =~= g.domain@.map_values(
                    |f: Forma| f@,
                ));
            }
            out.push(SP);
            out.push(DASH);
            out.push(GT);
            out.push(SP);
            write_formas(out, &g.range, 0);
            proof {
                assert(g.range@.map_values(|f: Forma| f@).skip(0) =~= g.range@.map_values(
                    |f: Forma| f@,
                ));
                assert(out@ =~= old(out)@ + ser_declaration(d@));
            }
        },
        None => {
            proof {
                assert(out@ =~= old(out)@ + ser_declaration(d@));
            }
        },
    }
}

/// Serialize a document into its canonical byte form.
pub fn serialize_document(doc: &Document) -> (out: Vec<u8>)
    requires
        wf_document(doc@),
    ensures
        out@ == ser_document(doc@),
{
    let mut out: Vec<u8> = Vec::new();
    match doc.spdx {
        Some(ref v) => {
            out.push(BANG);
            out.push(SP);
            write_bytes(&mut out, &v.license);
            match v.copyright {
                Some(ref c) => {
                    out.push(SEMI);
                    out.push(SP);
                    out.push(LPAREN);
                    out.push(CLOWER);
                    out.push(RPAREN);
                    out.push(SP);
                    match c.year {
                        Some(y) => {
                            write_year(&mut out, y);
                            out.push(SP);
                        },
                        None => {},
                    }
                    write_bytes(&mut out, &c.owner);
                },
                None => {},
            }
            out.push(NL);
            assert(out@ =~= ser_spdx(v@) + seq![NL]);
        },
        None => {},
    }
    let ghost hd1 = match doc@.spdx {
        Some(v) => ser_spdx(v) + seq![NL],
        None => Seq::<u8>::empty(),
    };
    assert(out@ =~= hd1);
    match doc.template {
        Some(ref t) => {
            out.push(AMP);
            out.push(SP);
            write_bytes(&mut out, &t.template);
            out.push(NL);
            assert(out@ =~= hd1 + (ser_template(t@) + seq![NL]));
        },
        None => {},
    }
    let ghost hd2 = hd1 + (match doc@.template {
        Some(t) => ser_template(t) + seq![NL],
        None => Seq::<u8>::empty(),
    });
    assert(out@ =~= hd2);
    let ghost dv = doc@.declarations;
    assert(dv.skip(0) =~= dv);
    let mut k: usize = 0;
    while k < doc.declarations.len()
        invariant
            k <= dv.len(),
            doc.declarations@.map_values(|d: Declaration| d@) == dv,
            forall|i: int| 0 <= i < dv.len() ==> wf_declaration(#[trigger] dv[i]),
            out@ + ser_decls(dv.skip(k as int)) == hd2 + ser_decls(dv),
        decreases dv.len() - k,
    {
        assert(doc.declarations@[k as int]@ == dv[k as int]);
        write_declaration(&mut out, &doc.declarations[k]);
        out.push(NL);
        k = k + 1;
        proof {
            assert(dv.skip(k as int - 1).drop_first() =~= dv.skip(k as int));
            assert(dv.skip(k as int - 1)[0] == dv[k as int - 1]);
            assert(out@ + ser_decls(dv.skip(k as int)) =~= hd2 + ser_decls(dv));
        }
    }
    proof {
        assert(ser_decls(dv.skip(dv.len() as int)) =~= Seq::<u8>::empty());
        assert(out@ =~= hd2 + ser_decls(dv));
        assert(out@ =~= ser_document(doc@));
    }
    out
}

} // verus!
