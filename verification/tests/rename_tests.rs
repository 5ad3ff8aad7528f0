use eru::metadata::EpubMetadata;
use eru::rename::{create_rename_action, generate_filename, RenameOptions};

fn novel() -> EpubMetadata {
    EpubMetadata {
        source_path: "./ebooks/978-0-123456-78-9.epub".to_string(),
        title: Some("The Great Novel".to_string()),
        author: Some("Smith, Jane".to_string()),
        publisher: Some("Acme Publishing".to_string()),
        date: Some("2023-05-15".to_string()),
        year: Some("2023".to_string()),
        isbn: Some("978-0-123456-78-9".to_string()),
        language: Some("en".to_string()),
    }
}

fn opts(space: Option<char>, no_comma: bool) -> RenameOptions {
    RenameOptions { space_char: space, no_comma }
}

#[test]
fn readme_author_title() {
    assert_eq!(generate_filename(&novel(), "{author} - {title}", &opts(None, false)), "Smith, Jane - The Great Novel.epub");
}

#[test]
fn readme_with_year() {
    assert_eq!(
        generate_filename(&novel(), "{author} - {title} ({year})", &opts(None, false)),
        "Smith, Jane - The Great Novel (2023).epub"
    );
}

#[test]
fn readme_underscores() {
    assert_eq!(generate_filename(&novel(), "{author} - {title}", &opts(Some('_'), false)), "Smith,_Jane_-_The_Great_Novel.epub");
}

#[test]
fn readme_dots() {
    assert_eq!(generate_filename(&novel(), "{author} - {title}", &opts(Some('.'), false)), "Smith,.Jane.-.The.Great.Novel.epub");
}

#[test]
fn readme_no_comma() {
    assert_eq!(generate_filename(&novel(), "{author} - {title}", &opts(None, true)), "Smith Jane - The Great Novel.epub");
}

#[test]
fn readme_combined_options() {
    assert_eq!(generate_filename(&novel(), "{author} - {title}", &opts(Some('_'), true)), "Smith_Jane_-_The_Great_Novel.epub");
}

#[test]
fn all_placeholders() {
    assert_eq!(
        generate_filename(&novel(), "{publisher}|{date}|{isbn}|{language}", &opts(None, false)),
        "Acme Publishing_2023-05-15_978-0-123456-78-9_en.epub"
    );
}

#[test]
fn missing_fields_are_omitted() {
    let mut m = novel();
    m.author = None;
    assert_eq!(generate_filename(&m, "{author} - {title}", &opts(None, false)), "The Great Novel.epub");
    m.year = None;
    assert_eq!(generate_filename(&m, "{title} {year} {isbn}", &opts(None, false)), "The Great Novel 978-0-123456-78-9.epub");
    let empty = EpubMetadata {
        source_path: "a.epub".to_string(),
        title: None, author: None, publisher: None, date: None, year: None, isbn: None, language: None,
    };
    assert_eq!(generate_filename(&empty, "{author} - {title}", &opts(None, false)), ".epub");
}

#[test]
fn forbidden_characters_become_underscores() {
    let mut m = novel();
    m.title = Some("AC/DC: Live?".to_string());
    assert_eq!(generate_filename(&m, "{title} <x>", &opts(None, false)), "AC_DC_ Live_ _x_.epub");
}

#[test]
fn cleanup_collapses_spaces_and_separators() {
    let mut m = novel();
    m.author = None;
    m.year = None;
    assert_eq!(generate_filename(&m, "  {author} - - {title}   -  {year} ", &opts(None, false)), "The Great Novel.epub");
    assert_eq!(generate_filename(&m, "a - - b", &opts(None, false)), "a - b.epub");
}

#[test]
fn unknown_braces_are_literal() {
    assert_eq!(generate_filename(&novel(), "{series} {title}", &opts(None, false)), "{series} The Great Novel.epub");
}

#[test]
fn rename_action_stays_in_directory() {
    let a = create_rename_action(&novel(), "{author} - {title}", &opts(None, false));
    assert_eq!(a.from, "./ebooks/978-0-123456-78-9.epub");
    assert_eq!(a.to, "./ebooks/Smith, Jane - The Great Novel.epub");
}

#[test]
fn rename_action_bare_and_rooted_paths() {
    let mut m = novel();
    m.source_path = "book.epub".to_string();
    assert_eq!(create_rename_action(&m, "{title}", &opts(None, false)).to, "The Great Novel.epub");
    m.source_path = "/book.epub".to_string();
    assert_eq!(create_rename_action(&m, "{title}", &opts(None, false)).to, "/The Great Novel.epub");
    m.source_path = "books/./book.epub".to_string();
    assert_eq!(create_rename_action(&m, "{title}", &opts(None, false)).to, "books/The Great Novel.epub");
    m.source_path = "books/sub/./".to_string();
    assert_eq!(create_rename_action(&m, "{title}", &opts(None, false)).to, "books/The Great Novel.epub");
    m.source_path = "./book.epub".to_string();
    assert_eq!(create_rename_action(&m, "{title}", &opts(None, false)).to, "./The Great Novel.epub");
    m.source_path = "/a//b/book.epub".to_string();
    assert_eq!(create_rename_action(&m, "{title}", &opts(None, false)).to, "/a//b/The Great Novel.epub");
}

#[test]
fn default_rename_options() {
    let o = RenameOptions::default();
    assert_eq!(o.space_char, None);
    assert!(!o.no_comma);
}
