use eru::provider::{isbn_lookup_url, pick_isbn, records_from_docs, title_search_url, urlencode, BookRecord, OlDoc};

#[test]
fn test_urlencode() {
    assert_eq!(urlencode("dune herbert"), "dune+herbert");
    assert_eq!(urlencode("A&B"), "A%26B");
}

#[test]
fn urlencode_utf8_and_unreserved() {
    assert_eq!(urlencode("é"), "%C3%A9");
    assert_eq!(urlencode("a-b_c.d~e"), "a-b_c.d~e");
    assert_eq!(urlencode("x=1#y"), "x%3D1%23y");
    assert_eq!(urlencode(""), "");
}

#[test]
fn test_pick_isbn_prefers_13() {
    let arr = vec![Some("0441013597".to_string()), Some("9780441013593".to_string())];
    assert_eq!(pick_isbn(&arr), Some("9780441013593".to_string()));
}

#[test]
fn pick_isbn_falls_back_to_10() {
    let arr = vec![None, Some("123".to_string()), Some("0441013597".to_string())];
    assert_eq!(pick_isbn(&arr), Some("0441013597".to_string()));
    assert_eq!(pick_isbn(&vec![Some("12".to_string())]), None);
    assert_eq!(pick_isbn(&vec![]), None);
}

#[test]
fn isbn_url_keeps_only_alphanumerics() {
    assert_eq!(
        isbn_lookup_url("978-0-441-01359-3"),
        "https://openlibrary.org/search.json?isbn=9780441013593&fields=title,author_name,first_publish_year,isbn,publisher,cover_i,subject,language&limit=5"
    );
}

#[test]
fn title_url_encodes_title_and_author() {
    assert_eq!(
        title_search_url("Dune Messiah", Some("Frank Herbert")),
        "https://openlibrary.org/search.json?title=Dune+Messiah&fields=title,author_name,first_publish_year,isbn,publisher,cover_i,subject,language&limit=5&author=Frank+Herbert"
    );
    assert_eq!(
        title_search_url("A&B", None),
        "https://openlibrary.org/search.json?title=A%26B&fields=title,author_name,first_publish_year,isbn,publisher,cover_i,subject,language&limit=5"
    );
}

#[test]
fn records_from_docs_builds_canonical_records() {
    let doc = OlDoc {
        title: Some("Dune".to_string()),
        author_name: vec![Some("Frank Herbert".to_string()), None],
        first_publish_year: Some(1965),
        isbn: vec![Some("0441013597".to_string()), Some("9780441013593".to_string())],
        publisher: vec![None, Some("Ace".to_string())],
        language: vec![Some("eng".to_string())],
        subject: (0..10).map(|i| Some(format!("s{i}"))).collect(),
        cover_i: Some(-42),
    };
    let recs = records_from_docs(&vec![doc]);
    assert_eq!(recs.len(), 1);
    let r = &recs[0];
    assert_eq!(r.title, Some("Dune".to_string()));
    assert_eq!(r.authors, vec!["Frank Herbert".to_string()]);
    assert_eq!(r.year, Some("1965".to_string()));
    assert_eq!(r.date, Some("1965".to_string()));
    assert_eq!(r.isbn, Some("9780441013593".to_string()));
    assert_eq!(r.publisher, None);
    assert_eq!(r.language, Some("eng".to_string()));
    assert_eq!(r.subjects.len(), 8);
    assert_eq!(r.subjects[7], "s7");
    assert_eq!(r.cover_url, Some("https://covers.openlibrary.org/b/id/-42-L.jpg".to_string()));
    assert_eq!(r.source, "openlibrary");
}

#[test]
fn empty_record_default() {
    let r = BookRecord::default();
    assert!(r.title.is_none() && r.authors.is_empty() && r.source.is_empty());
}
