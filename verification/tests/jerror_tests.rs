use jonla::jerror::{JError, JErrorEntry, JErrorLabel, Severity};

#[test]
fn message_tells_name_errors_from_parsing_errors() {
    assert_eq!(JErrorEntry::UnexpectedEOF((3, 3)).message(), "Parsing error");
    assert_eq!(JErrorEntry::UnexpectedChar((3, 4), 'x').message(), "Parsing error");
    assert_eq!(JErrorEntry::UnexpectedStr((3, 4), "#pt").message(), "Parsing error");
    assert_eq!(JErrorEntry::UnexpectedString((3, 4), "name".to_string()).message(), "Parsing error");
    assert_eq!(JErrorEntry::NameUndefined((3, 4)).message(), "Name error");
}

#[test]
fn every_entry_is_an_error() {
    assert_eq!(JErrorEntry::UnexpectedEOF((0, 0)).severity(), Severity::Error);
    assert_eq!(JErrorEntry::NameUndefined((0, 1)).severity(), Severity::Error);
}

#[test]
fn span_is_the_region_of_the_entry() {
    assert_eq!(JErrorEntry::UnexpectedEOF((3, 3)).span(), (3, 3));
    assert_eq!(JErrorEntry::UnexpectedChar((1, 2), 'x').span(), (1, 2));
    assert_eq!(JErrorEntry::UnexpectedStr((5, 8), "#pt").span(), (5, 8));
    assert_eq!(JErrorEntry::UnexpectedString((7, 9), "name".to_string()).span(), (7, 9));
    assert_eq!(JErrorEntry::NameUndefined((2, 6)).span(), (2, 6));
}

fn label(msg: &str, span: (usize, usize)) -> Vec<JErrorLabel> {
    vec![JErrorLabel { msg: Some(msg.to_string()), span }]
}

#[test]
fn labels_say_what_was_expected() {
    assert_eq!(
        JErrorEntry::UnexpectedEOF((3, 3)).labels(),
        label("Expected more input, but found end of file.", (3, 3))
    );
    assert_eq!(JErrorEntry::UnexpectedChar((1, 2), 'x').labels(), label("Expected x here.", (1, 2)));
    assert_eq!(JErrorEntry::UnexpectedChar((1, 2), 'é').labels(), label("Expected é here.", (1, 2)));
    assert_eq!(JErrorEntry::UnexpectedStr((5, 8), "#pt").labels(), label("Expected #pt here.", (5, 8)));
    assert_eq!(
        JErrorEntry::UnexpectedString((7, 9), "name".to_string()).labels(),
        label("Expected name here.", (7, 9))
    );
    assert_eq!(JErrorEntry::NameUndefined((2, 6)).labels(), label("This name is undefined.", (2, 6)));
}

#[test]
fn extent_is_cut_at_the_last_byte_of_the_source() {
    let l = JErrorLabel { msg: None, span: (2, 5) };
    assert!(l.fits(10));
    assert_eq!(l.extent(10), (2, 3));
    assert_eq!(l.extent(6), (2, 3));
    assert_eq!(l.extent(5), (2, 2));
    assert_eq!(l.extent(3), (2, 0));
    assert!(!l.fits(2));
    assert!(!l.fits(0));
    let empty = JErrorLabel { msg: None, span: (4, 4) };
    assert!(empty.fits(5));
    assert_eq!(empty.extent(5), (4, 0));
    assert!(!JErrorLabel { msg: None, span: (5, 4) }.fits(9));
}

#[test]
fn clones_are_equal() {
    let entries = vec![
        JErrorEntry::UnexpectedEOF((3, 3)),
        JErrorEntry::UnexpectedChar((1, 2), 'x'),
        JErrorEntry::UnexpectedStr((5, 8), "#pt"),
        JErrorEntry::UnexpectedString((7, 9), "name".to_string()),
        JErrorEntry::NameUndefined((2, 6)),
    ];
    for e in &entries {
        assert_eq!(&e.clone(), e);
    }
    let all = JError { errors: entries };
    assert_eq!(all.clone(), all);
    let l = JErrorLabel { msg: Some("m".to_string()), span: (1, 2) };
    assert_eq!(l.clone(), l);
    let l = JErrorLabel { msg: None, span: (1, 2) };
    assert_eq!(l.clone(), l);
}
