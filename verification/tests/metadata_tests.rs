use eru::metadata::{extract_year, year_from_parse, is_isbn, metadata_from_fields, to_lastname_first, year_string, EpubMetadata};

fn md(title: Option<&str>, author: Option<&str>) -> EpubMetadata {
    EpubMetadata {
        source_path: "x.epub".to_string(),
        title: title.map(|s| s.to_string()),
        author: author.map(|s| s.to_string()),
        publisher: None,
        date: None,
        year: None,
        isbn: None,
        language: None,
    }
}

#[test]
fn test_extract_year_iso_format() {
    assert_eq!(extract_year("2023-05-15"), Some("2023".to_string()));
    assert_eq!(extract_year("2020-01-01"), Some("2020".to_string()));
}

#[test]
fn test_extract_year_slash_format() {
    assert_eq!(extract_year("2023/05/15"), Some("2023".to_string()));
}

#[test]
fn test_extract_year_year_only() {
    assert_eq!(extract_year("2023"), Some("2023".to_string()));
}

#[test]
fn test_extract_year_year_month() {
    assert_eq!(extract_year("2023-05"), Some("2023".to_string()));
}

#[test]
fn test_extract_year_invalid() {
    assert_eq!(extract_year("invalid"), None);
    assert_eq!(extract_year(""), None);
}

#[test]
fn extract_year_dotted_and_fallback() {
    assert_eq!(extract_year("2023.05.15"), Some("2023".to_string()));
    // Not a calendar date, but it begins with four digits.
    assert_eq!(extract_year("1999-13-45"), Some("1999".to_string()));
    assert_eq!(extract_year("1999 edition"), Some("1999".to_string()));
    assert_eq!(extract_year("99-01-01x"), None);
}

#[test]
fn extract_year_pads_as_chrono_does() {
    assert_eq!(extract_year("0099-01-01"), Some("0099".to_string()));
}

#[test]
fn year_string_signs_and_padding() {
    assert_eq!(year_string(2023), "2023");
    assert_eq!(year_string(5), "0005");
    assert_eq!(year_string(0), "0000");
    assert_eq!(year_string(12345), "+12345");
    assert_eq!(year_string(10000), "+10000");
    assert_eq!(year_string(-1), "-0001");
    assert_eq!(year_string(-12345), "-12345");
}

#[test]
fn test_is_isbn_valid() {
    assert!(is_isbn("978-0-123456-78-9"));
    assert!(is_isbn("9780123456789"));
    assert!(is_isbn("0-123456-78-X"));
    assert!(is_isbn("012345678X"));
}

#[test]
fn test_is_isbn_invalid() {
    assert!(!is_isbn("12345"));
    assert!(!is_isbn(""));
    assert!(!is_isbn("not-an-isbn"));
}

#[test]
fn is_isbn_counts_only_isbn_characters() {
    assert!(is_isbn("ISBN 0 12345 678 x"));
    assert!(!is_isbn("97801234567890"));
}

#[test]
fn test_to_lastname_first() {
    assert_eq!(to_lastname_first("Jane Smith"), "Smith, Jane");
    assert_eq!(to_lastname_first("John Ronald Reuel Tolkien"), "Tolkien, John Ronald Reuel");
    assert_eq!(to_lastname_first("Prince"), "Prince");
    assert_eq!(to_lastname_first("Smith, Jane"), "Smith, Jane");
    assert_eq!(to_lastname_first(""), "");
}

#[test]
fn to_lastname_first_collapses_white_space() {
    assert_eq!(to_lastname_first("  Jane \t Q   Smith  "), "Smith, Jane Q");
    assert_eq!(to_lastname_first("   "), "");
}

#[test]
fn to_lastname_first_is_idempotent() {
    for name in ["Jane Smith", "John Ronald Reuel Tolkien", "Prince", "", "  a  b "] {
        let once = to_lastname_first(name);
        assert_eq!(to_lastname_first(&once), once);
    }
}

#[test]
fn has_metadata_needs_title_or_author() {
    assert!(md(Some("T"), None).has_metadata());
    assert!(md(None, Some("A")).has_metadata());
    assert!(!md(None, None).has_metadata());
}

#[test]
fn metadata_from_fields_normalises() {
    let m = metadata_from_fields(
        "dir/book.epub".to_string(),
        Some("  The Great Novel ".to_string()),
        Some("Jane Smith".to_string()),
        Some("   ".to_string()),
        Some("2023-05-15".to_string()),
        Some("978-0-123456-78-9".to_string()),
        None,
    );
    assert_eq!(m.source_path, "dir/book.epub");
    assert_eq!(m.title, Some("The Great Novel".to_string()));
    assert_eq!(m.author, Some("Smith, Jane".to_string()));
    assert_eq!(m.publisher, None);
    assert_eq!(m.date, Some("2023-05-15".to_string()));
    assert_eq!(m.year, Some("2023".to_string()));
    assert_eq!(m.isbn, Some("978-0-123456-78-9".to_string()));
    assert_eq!(m.language, None);
}

#[test]
fn metadata_from_fields_drops_non_isbn_identifier() {
    let m = metadata_from_fields(
        "b.epub".to_string(),
        None,
        None,
        None,
        Some("invalid".to_string()),
        Some("urn:uuid:1234".to_string()),
        Some("en".to_string()),
    );
    assert_eq!(m.isbn, None);
    assert_eq!(m.year, None);
    assert_eq!(m.language, Some("en".to_string()));
}

#[test]
fn year_from_parse_uses_parsed_year_else_leading_digits() {
    assert_eq!(year_from_parse("whatever", Some(2023)), Some("2023".to_string()));
    assert_eq!(year_from_parse("x", Some(12345)), Some("+12345".to_string()));
    assert_eq!(year_from_parse("1999-13-45", None), Some("1999".to_string()));
    assert_eq!(year_from_parse("99-1", None), None);
}
