use technique::ast::Diagnostic;
use technique::ast::GrammarErrorKind;
use technique::ast::LexErrorKind;
use technique::ast::ParseError;
use technique::ast::Severity;
use technique::ast::Year;
use technique::document::line_col;
use technique::document::parse_document;
use technique::header::parse_spdx;
use technique::header::parse_template;
use technique::serialize::serialize_document;

#[test]
fn spdx_line_with_owner() {
    let line = b"! MIT; (c) ACME, Inc.".to_vec();
    let v = parse_spdx(&line, 0, line.len()).unwrap();
    assert_eq!(v.license, b"MIT".to_vec());
    let c = v.copyright.unwrap();
    assert_eq!(c.year, None);
    assert_eq!(c.owner, b"ACME, Inc.".to_vec());
}

#[test]
fn spdx_line_with_year_and_owner() {
    let line = b"! MIT; (c) 2024 ACME, Inc.".to_vec();
    let v = parse_spdx(&line, 0, line.len()).unwrap();
    assert_eq!(v.license, b"MIT".to_vec());
    let c = v.copyright.unwrap();
    assert_eq!(c.year, Some(Year::Bare(2024)));
    assert_eq!(c.owner, b"ACME, Inc.".to_vec());
}

#[test]
fn spdx_line_license_only() {
    let line = b"! PD".to_vec();
    let v = parse_spdx(&line, 0, line.len()).unwrap();
    assert_eq!(v.license, b"PD".to_vec());
    assert!(v.copyright.is_none());
}

#[test]
fn spdx_line_empty_license_is_malformed() {
    let line = b"!".to_vec();
    let e = parse_spdx(&line, 0, line.len()).unwrap_err();
    assert_eq!(e.kind, GrammarErrorKind::MalformedSpdxLine);
    assert_eq!(e.offset, 1);
}

#[test]
fn template_line() {
    let line = b"& checklist".to_vec();
    let t = parse_template(&line, 0, line.len()).unwrap();
    assert_eq!(t.template, b"checklist".to_vec());

    let line = b"& nasa-flight-plan-v4.0".to_vec();
    let t = parse_template(&line, 0, line.len()).unwrap();
    assert_eq!(t.template, b"nasa-flight-plan-v4.0".to_vec());
}

#[test]
fn bare_template_marker_is_rejected_at_offset_one() {
    let line = b"&".to_vec();
    let e = parse_template(&line, 0, line.len()).unwrap_err();
    assert_eq!(e.kind, GrammarErrorKind::MissingTemplateName);
    assert_eq!(e.offset, 1);
}

#[test]
fn template_name_with_bad_byte_is_malformed() {
    let line = b"& two words".to_vec();
    let e = parse_template(&line, 0, line.len()).unwrap_err();
    assert_eq!(e.kind, GrammarErrorKind::MalformedTemplateLine);
    assert_eq!(e.offset, 5);
}

#[test]
fn whole_document_parses() {
    let src = b"! MIT; (c) 2002-2024 ACME, Inc.\n& checklist\n\nmaking_coffee : Beans, Milk -> Coffee\np :\n"
        .to_vec();
    let (doc, diags) = parse_document(&src);
    assert!(diags.is_empty());
    let spdx = doc.spdx.unwrap();
    assert_eq!(spdx.license, b"MIT".to_vec());
    let c = spdx.copyright.unwrap();
    assert_eq!(c.year, Some(Year::Closed(2002, 2024)));
    assert_eq!(c.owner, b"ACME, Inc.".to_vec());
    assert_eq!(doc.template.unwrap().template, b"checklist".to_vec());
    assert_eq!(doc.declarations.len(), 2);
    assert_eq!(doc.declarations[0].identifier.bytes, b"making_coffee".to_vec());
    assert_eq!(doc.declarations[1].identifier.bytes, b"p".to_vec());
    assert!(doc.declarations[1].signature.is_none());
}

#[test]
fn two_malformed_lines_yield_two_diagnostics() {
    let src = b"cook-pizza :\np\nq : A -> B\n".to_vec();
    let (doc, diags) = parse_document(&src);
    assert_eq!(doc.declarations.len(), 1);
    assert_eq!(diags.len(), 2);
    assert!(diags.iter().all(|d| d.severity == Severity::Error));
    match diags[0].error {
        ParseError::Lex(e) => {
            assert_eq!(e.kind, LexErrorKind::InvalidIdentifier);
            assert_eq!(e.offset, 0);
        },
        ParseError::Grammar(_) => panic!("expected a lex error first"),
    }
    match diags[1].error {
        ParseError::Grammar(e) => {
            assert_eq!(e.kind, GrammarErrorKind::MissingColon);
            assert_eq!(e.offset, 14);
        },
        ParseError::Lex(_) => panic!("expected a grammar error second"),
    }
}

#[test]
fn unrecognized_statement_is_reported_and_skipped() {
    let src = b"MakeDinner\np :\n".to_vec();
    let (doc, diags) = parse_document(&src);
    assert_eq!(doc.declarations.len(), 1);
    assert_eq!(diags.len(), 1);
    match diags[0].error {
        ParseError::Grammar(e) => {
            assert_eq!(e.kind, GrammarErrorKind::UnrecognizedStatement);
            assert_eq!(e.offset, 0);
        },
        ParseError::Lex(_) => panic!("expected a grammar error"),
    }
}

#[test]
fn serialization_round_trip_is_identity() {
    let src = b"! MIT; (c) 2024 ACME, Inc.\n& checklist\nmaking_coffee : Beans, Milk -> Coffee\np :\n"
        .to_vec();
    let (doc, diags) = parse_document(&src);
    assert!(diags.is_empty());
    let out = serialize_document(&doc);
    let (doc2, diags2) = parse_document(&out);
    assert!(diags2.is_empty());
    assert_eq!(doc2, doc);
    let out2 = serialize_document(&doc2);
    assert_eq!(out2, out);
}

#[test]
fn canonical_form_normalizes_spacing() {
    let src = b"p :  A ,B   ->   C\n".to_vec();
    let (doc, diags) = parse_document(&src);
    assert!(diags.is_empty());
    let out = serialize_document(&doc);
    assert_eq!(out, b"p : A, B -> C\n".to_vec());
    let (doc2, diags2) = parse_document(&out);
    assert!(diags2.is_empty());
    assert_eq!(doc2, doc);
}

#[test]
fn diagnostic_offsets_map_to_lines_and_columns() {
    let src = b"p :\n\ncook-pizza :\n".to_vec();
    let (_, diags) = parse_document(&src);
    assert_eq!(diags.len(), 1);
    let off = diags[0].offset();
    assert_eq!(off, 5);
    assert_eq!(line_col(&src, off), (3, 1));
    let d: Diagnostic = diags[0];
    assert_eq!(d.severity, Severity::Error);
}

#[test]
fn spdx_junk_after_semicolon_is_malformed() {
    let line = b"! MIT; see file".to_vec();
    let e = parse_spdx(&line, 0, line.len()).unwrap_err();
    assert_eq!(e.kind, GrammarErrorKind::MalformedSpdxLine);
    assert_eq!(e.offset, 6);
}

#[test]
fn open_year_range_in_document() {
    let src = b"! CC BY-SA 3.0 IGO; (c) 2024- ACME, Inc.\np :\n".to_vec();
    let (doc, diags) = parse_document(&src);
    assert!(diags.is_empty());
    let spdx = doc.spdx.unwrap();
    assert_eq!(spdx.license, b"CC BY-SA 3.0 IGO".to_vec());
    let c = spdx.copyright.unwrap();
    assert_eq!(c.year, Some(Year::Open(2024)));
    assert_eq!(c.owner, b"ACME, Inc.".to_vec());
}

#[test]
fn format_idempotence_without_header() {
    let src = b"a :\nb : X -> Y\n".to_vec();
    let (doc, diags) = parse_document(&src);
    assert!(diags.is_empty());
    let out = serialize_document(&doc);
    assert_eq!(out, src);
    let (doc2, diags2) = parse_document(&out);
    assert!(diags2.is_empty());
    assert_eq!(doc2, doc);
}

#[test]
fn diagnostics_come_out_in_source_order() {
    let src = b"&\nMakeDinner\ncook-pizza :\n".to_vec();
    let (_, diags) = parse_document(&src);
    assert_eq!(diags.len(), 3);
    let offsets: Vec<usize> = diags.iter().map(|d| d.offset()).collect();
    let mut sorted = offsets.clone();
    sorted.sort();
    assert_eq!(offsets, sorted);
}

#[test]
fn blank_and_empty_documents() {
    let (doc, diags) = parse_document(&b"".to_vec());
    assert!(doc.spdx.is_none());
    assert!(doc.template.is_none());
    assert!(doc.declarations.is_empty());
    assert!(diags.is_empty());

    let (doc, diags) = parse_document(&b"  \n\n\t\n".to_vec());
    assert!(doc.spdx.is_none() && doc.template.is_none());
    assert!(doc.declarations.is_empty());
    assert!(diags.is_empty());
}

#[test]
fn header_lines_after_statements_are_unrecognized() {
    let src = b"p :\n! MIT\n".to_vec();
    let (doc, diags) = parse_document(&src);
    assert_eq!(doc.declarations.len(), 1);
    assert!(doc.spdx.is_none());
    assert_eq!(diags.len(), 1);
    match diags[0].error {
        ParseError::Grammar(e) => {
            assert_eq!(e.kind, GrammarErrorKind::UnrecognizedStatement);
            assert_eq!(e.offset, 4);
        },
        ParseError::Lex(_) => panic!("expected a grammar error"),
    }
}
