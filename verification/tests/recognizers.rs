use technique::ast::LexErrorKind;
use technique::ast::Year;
use technique::ident::recognize_forma;
use technique::ident::recognize_identifier;
use technique::year::recognize_year;

#[test]
fn check_identifier_rules() {
    let input = b"make_dinner".to_vec();
    let result = recognize_identifier(&input);
    assert_eq!(result.unwrap().bytes, b"make_dinner".to_vec());

    let input = b"".to_vec();
    let result = recognize_identifier(&input);
    assert!(result.is_err());

    let input = b"MakeDinner".to_vec();
    let result = recognize_identifier(&input);
    assert!(result.is_err());
}

#[test]
fn identifier_rejections_carry_offsets() {
    let err = recognize_identifier(&b"".to_vec()).unwrap_err();
    assert_eq!(err.kind, LexErrorKind::InvalidIdentifier);
    assert_eq!(err.offset, 0);

    let err = recognize_identifier(&b"MakeDinner".to_vec()).unwrap_err();
    assert_eq!(err.kind, LexErrorKind::InvalidIdentifier);
    assert_eq!(err.offset, 0);

    let err = recognize_identifier(&b"cook-pizza".to_vec()).unwrap_err();
    assert_eq!(err.kind, LexErrorKind::InvalidIdentifier);
    assert_eq!(err.offset, 4);
}

#[test]
fn identifier_accepts_digits_and_underscores() {
    let id = recognize_identifier(&b"step_2_of_9".to_vec()).unwrap();
    assert_eq!(id.bytes, b"step_2_of_9".to_vec());
    assert!(recognize_identifier(&b"2steps".to_vec()).is_err());
    assert!(recognize_identifier(&b"_private".to_vec()).is_err());
}

#[test]
fn forma_rules() {
    let f = recognize_forma(&b"Beans".to_vec()).unwrap();
    assert_eq!(f.bytes, b"Beans".to_vec());
    let f = recognize_forma(&b"Coffee".to_vec()).unwrap();
    assert_eq!(f.bytes, b"Coffee".to_vec());
    let err = recognize_forma(&b"beans".to_vec()).unwrap_err();
    assert_eq!(err.kind, LexErrorKind::InvalidForma);
    assert_eq!(err.offset, 0);
    assert!(recognize_forma(&b"".to_vec()).is_err());
    assert!(recognize_forma(&b"Be-ans".to_vec()).is_err());
}

#[test]
fn year_shapes() {
    assert_eq!(recognize_year(&b"2024".to_vec()).unwrap(), Year::Bare(2024));
    assert_eq!(recognize_year(&b"2024-".to_vec()).unwrap(), Year::Open(2024));
    assert_eq!(
        recognize_year(&b"2002-2024".to_vec()).unwrap(),
        Year::Closed(2002, 2024)
    );

    let err = recognize_year(&b"02".to_vec()).unwrap_err();
    assert_eq!(err.kind, LexErrorKind::InvalidYear);
    assert_eq!(err.offset, 0);

    let err = recognize_year(&b"02-24".to_vec()).unwrap_err();
    assert_eq!(err.kind, LexErrorKind::InvalidYear);
    assert_eq!(err.offset, 0);
}

#[test]
fn year_short_closed_range_fails_at_end_year() {
    let err = recognize_year(&b"2002-24".to_vec()).unwrap_err();
    assert_eq!(err.kind, LexErrorKind::InvalidYear);
    assert_eq!(err.offset, 5);
}
