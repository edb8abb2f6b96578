use technique::ast::GrammarErrorKind;
use technique::ast::LexErrorKind;
use technique::ast::ParseError;
use technique::decl::parse_declaration_line;

fn formas(d: &technique::ast::Signature) -> (Vec<Vec<u8>>, Vec<Vec<u8>>) {
    (
        d.domain.iter().map(|f| f.bytes.clone()).collect(),
        d.range.iter().map(|f| f.bytes.clone()).collect(),
    )
}

#[test]
fn declaration_without_signature() {
    let d = parse_declaration_line(&b"p :".to_vec()).unwrap();
    assert_eq!(d.identifier.bytes, b"p".to_vec());
    assert!(d.signature.is_none());
}

#[test]
fn declaration_with_signature() {
    let d = parse_declaration_line(&b"p : A -> B".to_vec()).unwrap();
    assert_eq!(d.identifier.bytes, b"p".to_vec());
    let sig = d.signature.unwrap();
    let (dom, rng) = formas(&sig);
    assert_eq!(dom, vec![b"A".to_vec()]);
    assert_eq!(rng, vec![b"B".to_vec()]);
}

#[test]
fn declaration_with_forma_lists() {
    let d = parse_declaration_line(&b"making_coffee : Beans, Milk -> Coffee".to_vec()).unwrap();
    assert_eq!(d.identifier.bytes, b"making_coffee".to_vec());
    let sig = d.signature.unwrap();
    let (dom, rng) = formas(&sig);
    assert_eq!(dom, vec![b"Beans".to_vec(), b"Milk".to_vec()]);
    assert_eq!(rng, vec![b"Coffee".to_vec()]);
}

#[test]
fn hyphenated_identifier_fails_whole_statement() {
    let err = parse_declaration_line(&b"cook-pizza :".to_vec()).unwrap_err();
    match err {
        ParseError::Lex(e) => {
            assert_eq!(e.kind, LexErrorKind::InvalidIdentifier);
            assert_eq!(e.offset, 0);
        },
        ParseError::Grammar(_) => panic!("expected a lex error"),
    }
}

#[test]
fn missing_colon_is_reported() {
    let err = parse_declaration_line(&b"p".to_vec()).unwrap_err();
    match err {
        ParseError::Grammar(e) => {
            assert_eq!(e.kind, GrammarErrorKind::MissingColon);
            assert_eq!(e.offset, 1);
        },
        ParseError::Lex(_) => panic!("expected a grammar error"),
    }
}

#[test]
fn missing_arrow_is_reported() {
    let err = parse_declaration_line(&b"p : A B".to_vec()).unwrap_err();
    match err {
        ParseError::Grammar(e) => {
            assert_eq!(e.kind, GrammarErrorKind::MissingArrow);
            assert_eq!(e.offset, 6);
        },
        ParseError::Lex(_) => panic!("expected a grammar error"),
    }
}

#[test]
fn lowercase_forma_is_a_lex_error() {
    let err = parse_declaration_line(&b"p : a -> B".to_vec()).unwrap_err();
    match err {
        ParseError::Lex(e) => {
            assert_eq!(e.kind, LexErrorKind::InvalidForma);
            assert_eq!(e.offset, 4);
        },
        ParseError::Grammar(_) => panic!("expected a lex error"),
    }
}

#[test]
fn trailing_bytes_after_signature_are_reported() {
    let err = parse_declaration_line(&b"p : A -> B x".to_vec()).unwrap_err();
    match err {
        ParseError::Grammar(e) => {
            assert_eq!(e.kind, GrammarErrorKind::MalformedSignature);
            assert_eq!(e.offset, 11);
        },
        ParseError::Lex(_) => panic!("expected a grammar error"),
    }
}
