use isbnid::isbn::{ISBNError, ISBN};

fn error_of(id: &str) -> Option<ISBNError> {
    ISBN::new(id).err()
}

#[test]
fn new_reads_thirteen_digits_as_they_stand() {
    assert_eq!(ISBN::new("9781593273880").unwrap().isbn13(), "9781593273880");
    assert_eq!(ISBN::new("978-1-59327-388-0").unwrap().isbn13(), "9781593273880");
    assert_eq!(ISBN::new("978 1 59327 388 0").unwrap().isbn13(), "9781593273880");
    assert_eq!(ISBN::new("9799999999990").unwrap().isbn13(), "9799999999990");
}

#[test]
fn new_computes_the_check_digit_of_ten_units_anew() {
    assert_eq!(ISBN::new("012345672X").unwrap().isbn13(), "9780123456724");
    assert_eq!(ISBN::new("0-12-345672-x").unwrap().isbn13(), "9780123456724");
    assert_eq!(ISBN::new("0306406152").unwrap().isbn13(), "9780306406157");
    assert_eq!(ISBN::new("1593273886").unwrap().isbn13(), "9781593273880");
    assert_eq!(ISBN::new("0000000000").unwrap().isbn13(), "9780000000002");
}

#[test]
fn new_refuses_a_wrong_shape_with_format() {
    assert_eq!(error_of(""), Some(ISBNError::Format));
    assert_eq!(error_of("X123456781"), Some(ISBNError::Format));
    assert_eq!(error_of("012345672"), Some(ISBNError::Format));
    assert_eq!(error_of("978012345672X"), Some(ISBNError::Format));
    assert_eq!(error_of("978--0123456724"), Some(ISBNError::Format));
    assert_eq!(error_of("97801234567245"), Some(ISBNError::Format));
    assert_eq!(error_of("isbn 9780123456724"), Some(ISBNError::Format));
    assert_eq!(error_of("９７８０１２３４５６７２４"), Some(ISBNError::Format));
}

#[test]
fn new_refuses_a_wrong_check_digit_with_check_digit() {
    assert_eq!(error_of("012345678X"), Some(ISBNError::CheckDigit));
    assert_eq!(error_of("0123456720"), Some(ISBNError::CheckDigit));
    assert_eq!(error_of("0306406153"), Some(ISBNError::CheckDigit));
    assert_eq!(error_of("030640615X"), Some(ISBNError::CheckDigit));
    assert_eq!(error_of("9780123456780"), Some(ISBNError::CheckDigit));
    assert_eq!(error_of("9780123456781"), Some(ISBNError::CheckDigit));
    assert_eq!(error_of("9790123456780"), Some(ISBNError::CheckDigit));
    assert_eq!(error_of("9790123456781"), Some(ISBNError::CheckDigit));
}

#[test]
fn new_refuses_another_prefix_with_bookland() {
    assert_eq!(error_of("9890123456781"), Some(ISBNError::Bookland));
    assert_eq!(error_of("9770123456724"), Some(ISBNError::Bookland));
    assert_eq!(error_of("0000000000000"), Some(ISBNError::Bookland));
    // the prefix is judged before the check digit
    assert_eq!(error_of("1234567890128"), Some(ISBNError::Bookland));
    assert_eq!(error_of("1234567890120"), Some(ISBNError::Bookland));
}

#[test]
fn is_valid_answers_for_every_string() {
    assert!(ISBN::is_valid("012345672X"));
    assert!(ISBN::is_valid("9781593273880"));
    assert!(ISBN::is_valid("979-9-99-999999-0"));
    assert!(!ISBN::is_valid(""));
    assert!(!ISBN::is_valid(" "));
    assert!(!ISBN::is_valid("\0"));
    assert!(!ISBN::is_valid("978159327388０"));
    assert!(!ISBN::is_valid("\u{10ffff}"));
    assert!(!ISBN::is_valid(&"9".repeat(100_000)));
    assert!(!ISBN::is_valid(&"9-".repeat(100_000)));
}

#[test]
fn isbn10_writes_ten_as_one_letter() {
    let text = ISBN::new("9780123456724").unwrap().isbn10().unwrap();
    assert_eq!(text, "012345672X");
    assert_eq!(text.len(), 10);
    assert_eq!(ISBN::new("9780000000064").unwrap().isbn10().unwrap(), "000000006X");
}

#[test]
fn isbn10_writes_other_check_values_as_digits() {
    assert_eq!(ISBN::new("9780306406157").unwrap().isbn10().unwrap(), "0306406152");
    assert_eq!(ISBN::new("9780000000002").unwrap().isbn10().unwrap(), "0000000000");
    assert_eq!(ISBN::new("978-1-59327-388-0").unwrap().isbn10().unwrap(), "1593273886");
}

#[test]
fn isbn10_does_not_exist_under_979() {
    let id = ISBN::new("9799999999990").unwrap();
    assert_eq!(id.isbn10(), Err(ISBNError::Bookland));
    let id = ISBN::new("979-10-90636-07-1").unwrap();
    assert_eq!(id.isbn10(), Err(ISBNError::Bookland));
    assert_eq!(id.isbn13(), "9791090636071");
}

#[test]
fn isbn10_is_read_back_as_the_same_identifier() {
    let ids = [
        "9780123456724",
        "9780387308869",
        "9780393334777",
        "9781593273880",
        "9788478447749",
        "9780000000002",
        "9780000000064",
        "9789999999991",
    ];
    for id in ids {
        let first = ISBN::new(id).unwrap();
        let second = ISBN::new(&first.isbn10().unwrap()).unwrap();
        assert_eq!(second.isbn13(), first.isbn13());
        assert_eq!(second.isbn13(), id);
    }
}

#[test]
fn hyphen_is_read_back_as_the_same_identifier() {
    let ids = [
        ("9780123456724", (1, 2, 6)),
        ("9780387308869", (1, 3, 5)),
        ("9781593273880", (1, 5, 3)),
        ("9788478447749", (2, 4, 3)),
        ("9791090636071", (2, 5, 2)),
        ("9799999999990", (7, 1, 1)),
    ];
    for (id, widths) in ids {
        let first = ISBN::new(id).unwrap();
        let text = first.hyphen(widths).unwrap();
        assert_eq!(text.len(), 17);
        assert_eq!(ISBN::new(&text).unwrap().isbn13(), id);
    }
}

#[test]
fn urn_puts_the_scheme_before_the_thirteen_digits() {
    assert_eq!(ISBN::new("012345672X").unwrap().urn(), "URN:ISBN:9780123456724");
    assert_eq!(ISBN::new("9799999999990").unwrap().urn(), "URN:ISBN:9799999999990");
}

#[test]
fn hyphen_cuts_at_the_widths_given() {
    let id = ISBN::new("012345672X").unwrap();
    assert_eq!(id.hyphen((1, 2, 6)).unwrap(), "978-0-12-345672-4");
    assert_eq!(id.hyphen((2, 3, 4)).unwrap(), "978-01-234-5672-4");
    assert_eq!(id.hyphen((5, 3, 1)).unwrap(), "978-01234-567-2-4");
    assert_eq!(id.hyphen((1, 7, 1)).unwrap(), "978-0-1234567-2-4");
}

#[test]
fn hyphen_keeps_an_empty_part_between_its_hyphens() {
    let id = ISBN::new("012345672X").unwrap();
    assert_eq!(id.hyphen((9, 0, 0)).unwrap(), "978-012345672---4");
    assert_eq!(id.hyphen((3, 0, 6)).unwrap(), "978-012--345672-4");
    assert_eq!(id.hyphen((3, 6, 0)).unwrap(), "978-012-345672--4");
}

#[test]
fn hyphen_fails_with_range_for_an_unregistered_identifier() {
    let id = ISBN::new("9799999999990").unwrap();
    assert_eq!(id.hyphen((0, 0, 0)), Err(ISBNError::Range));
    assert_eq!(id.hyphen((0, 4, 5)), Err(ISBNError::Range));
}

#[test]
fn doi_cuts_between_registrant_and_publication() {
    let id = ISBN::new("012345672X").unwrap();
    assert_eq!(id.doi((1, 2, 6)).unwrap(), "10.978.012/3456724");
    assert_eq!(id.doi((2, 1, 6)).unwrap(), "10.978.012/3456724");
    assert_eq!(id.doi((1, 5, 3)).unwrap(), "10.978.012345/6724");
    assert_eq!(id.doi((9, 0, 0)).unwrap(), "10.978.012345672/4");
    let id = ISBN::new("9781593273880").unwrap();
    assert_eq!(id.doi((1, 5, 3)).unwrap(), "10.978.159327/3880");
}

#[test]
fn doi_fails_with_range_for_an_unregistered_identifier() {
    let id = ISBN::new("9799999999990").unwrap();
    assert_eq!(id.doi((0, 0, 0)), Err(ISBNError::Range));
    assert_eq!(id.doi((0, 9, 0)), Err(ISBNError::Range));
}

#[test]
fn known_identifier_in_ten_units() {
    let id = ISBN::new("012345672X").unwrap();
    assert_eq!(id.isbn13(), "9780123456724");
    assert_eq!(id.hyphen((1, 2, 6)).unwrap(), "978-0-12-345672-4");
    assert_eq!(id.urn(), "URN:ISBN:9780123456724");
    assert_eq!(id.doi((1, 2, 6)).unwrap(), "10.978.012/3456724");
}

#[test]
fn known_identifier_in_thirteen_digits() {
    let id = ISBN::new("9781593273880").unwrap();
    assert_eq!(id.isbn10().unwrap(), "1593273886");
    assert_eq!(id.hyphen((1, 5, 3)).unwrap(), "978-1-59327-388-0");
}
