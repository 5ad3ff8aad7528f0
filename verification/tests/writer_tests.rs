use eru::provider::BookRecord;
use eru::writer::{ebook_meta_argv, map_path, WriteConfig};

#[test]
fn parses_cmd_and_map() {
    let c = WriteConfig::new("docker exec -i cwa ebook-meta", Some("/mnt/x:/data"));
    assert_eq!(c.ebook_meta_cmd, vec!["docker", "exec", "-i", "cwa", "ebook-meta"]);
    assert_eq!(c.path_map, Some(("/mnt/x".into(), "/data".into())));
}

#[test]
fn maps_path_prefix() {
    let map = Some(("/mnt/x".to_string(), "/data".to_string()));
    assert_eq!(map_path("/mnt/x/book.epub", &map), "/data/book.epub");
    assert_eq!(map_path("/other/book.epub", &map), "/other/book.epub");
}

#[test]
fn map_splits_at_first_colon_only() {
    let c = WriteConfig::new("  ebook-meta  ", Some("C:/x:/y"));
    assert_eq!(c.ebook_meta_cmd, vec!["ebook-meta"]);
    assert_eq!(c.path_map, Some(("C".into(), "/x:/y".into())));
    assert_eq!(WriteConfig::new("ebook-meta", Some("nocolon")).path_map, None);
    assert_eq!(WriteConfig::new("ebook-meta", None).path_map, None);
    assert_eq!(map_path("/a", &None), "/a");
}

#[test]
fn argv_lists_the_record() {
    let cfg = WriteConfig::new("ebook-meta", Some("/host:/c"));
    let rec = BookRecord {
        title: Some("Dune".to_string()),
        authors: vec!["Frank Herbert".to_string(), "Someone Else".to_string()],
        publisher: None,
        date: Some("1965".to_string()),
        year: Some("1965".to_string()),
        isbn: Some("9780441013593".to_string()),
        language: None,
        subjects: vec!["sf".to_string(), "desert".to_string()],
        cover_url: None,
        source: "openlibrary",
    };
    let argv = ebook_meta_argv("/host/in/d.epub", &rec, &cfg).unwrap();
    assert_eq!(
        argv,
        vec![
            "ebook-meta", "/c/in/d.epub", "--title", "Dune", "--authors", "Frank Herbert & Someone Else",
            "--date", "1965", "--isbn", "9780441013593", "--tags", "sf, desert",
        ]
    );
}

#[test]
fn argv_refuses_empty_command() {
    let cfg = WriteConfig::new("   ", None);
    let err = ebook_meta_argv("x.epub", &BookRecord::default(), &cfg).unwrap_err();
    assert_eq!(err.message(), "External tool failed: empty ebook-meta command");
}
