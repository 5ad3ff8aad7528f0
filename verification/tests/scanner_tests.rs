use eru::error::EruError;
use eru::scanner::{is_epub, scan_outcome, scan_path, walk_depth};

#[test]
fn test_is_epub() {
    assert!(is_epub("book.epub"));
    assert!(is_epub("book.EPUB"));
    assert!(is_epub("book.ePub"));
    assert!(!is_epub("book.pdf"));
    assert!(!is_epub("book"));
}

#[test]
fn is_epub_edge_cases() {
    assert!(is_epub("dir/book.epub"));
    assert!(is_epub("dir/book.epub/"));
    assert!(!is_epub(".epub"));
    assert!(is_epub("a..epub"));
    assert!(!is_epub("book.epub.bak"));
    assert!(!is_epub("dir.epub/.."));
}

#[test]
fn test_scan_nonexistent_path() {
    let result = scan_path("/nonexistent/path/to/nowhere", false);
    assert!(result.is_err());
    assert!(matches!(result, Err(EruError::PathNotFound(p)) if p == "/nonexistent/path/to/nowhere"));
}

#[test]
fn scan_file_that_is_not_an_epub() {
    assert!(matches!(scan_path("/etc/passwd", false), Err(EruError::NotAnEpub(p)) if p == "/etc/passwd"));
}

#[test]
fn scan_directory_without_epubs() {
    assert_eq!(scan_path("/dev", false).unwrap(), Vec::<String>::new());
}

#[test]
fn scan_outcome_file_cases() {
    assert_eq!(scan_outcome("b.epub", true, true, false, vec![]).unwrap(), vec!["b.epub".to_string()]);
    assert!(matches!(scan_outcome("b.pdf", true, true, false, vec![]), Err(EruError::NotAnEpub(_))));
    assert!(matches!(scan_outcome("b", true, false, false, vec![]), Err(EruError::InvalidPath(_))));
    assert!(matches!(scan_outcome("b", false, false, false, vec![]), Err(EruError::PathNotFound(_))));
}

#[test]
fn scan_outcome_filters_and_sorts_in_path_order() {
    let entries = vec![
        Some(("d".to_string(), false)),
        Some(("d/z.epub".to_string(), true)),
        Some(("d/sub.epub".to_string(), true)),
        None,
        Some(("d/sub-x.epub".to_string(), true)),
        Some(("d/sub/x.epub".to_string(), true)),
        Some(("d/a.epub".to_string(), false)),
        Some(("d/m.pdf".to_string(), true)),
    ];
    let got = scan_outcome("d", true, false, true, entries).unwrap();
    assert_eq!(got, vec!["d/sub/x.epub", "d/sub-x.epub", "d/sub.epub", "d/z.epub"]);
}

#[test]
fn walk_depth_follows_recursive_flag() {
    assert_eq!(walk_depth(true), usize::MAX);
    assert_eq!(walk_depth(false), 1);
}
