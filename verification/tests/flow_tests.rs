use eru::conflict::{apply_choice, choice_for_lowered, parse_choice, plan_rename, ConflictChoice, ConflictPolicy, RenameStep};
use eru::enrich::{enrich_dest_dir, enrich_destination, enrich_step, record_to_metadata, EnrichAction, EnrichEvent, EnrichStatus, EnrichTally};
use eru::error::EruError;
use eru::metadata::EpubMetadata;
use eru::paths::same_path;
use eru::provider::BookRecord;

fn local(title: Option<&str>, author: Option<&str>, isbn: Option<&str>) -> EpubMetadata {
    EpubMetadata {
        source_path: "in/x.epub".to_string(),
        title: title.map(|s| s.to_string()),
        author: author.map(|s| s.to_string()),
        publisher: None,
        date: None,
        year: None,
        isbn: isbn.map(|s| s.to_string()),
        language: None,
    }
}

#[test]
fn enrich_without_signals_stops() {
    let m = local(None, None, None);
    assert!(matches!(enrich_step(&m, EnrichEvent::Start, true), EnrichAction::Finish(EnrichStatus::NoSignals)));
}

#[test]
fn enrich_tries_isbn_first_then_title() {
    let m = local(Some("Dune"), Some("Herbert, Frank"), Some("978-0441013593"));
    assert!(matches!(enrich_step(&m, EnrichEvent::Start, false), EnrichAction::LookupIsbn(i) if i == "978-0441013593"));
    assert!(matches!(enrich_step(&m, EnrichEvent::IsbnResults(2), false), EnrichAction::Score(true)));
    match enrich_step(&m, EnrichEvent::IsbnResults(0), false) {
        EnrichAction::SearchTitle(t, a) => {
            assert_eq!(t, "Dune");
            assert_eq!(a, Some("Herbert Frank".to_string()));
        }
        _ => panic!("expected a title search"),
    }
    assert!(matches!(enrich_step(&m, EnrichEvent::SearchResults(3), false), EnrichAction::Score(false)));
    assert!(matches!(enrich_step(&m, EnrichEvent::SearchResults(0), false), EnrichAction::Finish(EnrichStatus::NoMatch)));
}

#[test]
fn enrich_author_only_has_no_match() {
    let m = local(None, Some("Herbert, Frank"), None);
    assert!(matches!(enrich_step(&m, EnrichEvent::Start, false), EnrichAction::Finish(EnrichStatus::NoMatch)));
}

#[test]
fn enrich_gate_and_dry_run() {
    let m = local(Some("Dune"), None, None);
    assert!(matches!(enrich_step(&m, EnrichEvent::Scored(false), true), EnrichAction::Finish(EnrichStatus::LowConfidence)));
    assert!(matches!(enrich_step(&m, EnrichEvent::Scored(true), false), EnrichAction::Finish(EnrichStatus::Preview)));
    assert!(matches!(enrich_step(&m, EnrichEvent::Scored(true), true), EnrichAction::Write));
}

#[test]
fn record_to_metadata_uses_first_author() {
    let rec = BookRecord {
        title: Some("Dune".to_string()),
        authors: vec!["Frank Herbert".to_string(), "X Y".to_string()],
        year: Some("1965".to_string()),
        ..Default::default()
    };
    let m = record_to_metadata(&rec, "in/x.epub");
    assert_eq!(m.source_path, "in/x.epub");
    assert_eq!(m.title, Some("Dune".to_string()));
    assert_eq!(m.author, Some("Herbert, Frank".to_string()));
    assert_eq!(m.year, Some("1965".to_string()));
    assert_eq!(m.isbn, None);
}

#[test]
fn tally_counts_each_status() {
    let mut t = EnrichTally::new();
    t.record(EnrichStatus::Applied);
    t.record(EnrichStatus::Preview);
    t.record(EnrichStatus::LowConfidence);
    t.record(EnrichStatus::NoMatch);
    t.record(EnrichStatus::NoSignals);
    t.record_error();
    assert_eq!((t.done, t.low, t.no_match, t.no_signals, t.errors), (2, 1, 1, 1, 1));
}

#[test]
fn rename_plan_and_standing_answers() {
    let mut p = ConflictPolicy::new();
    assert_eq!(plan_rename(&p, false, false, true, false), RenameStep::SkipNoMetadata);
    assert_eq!(plan_rename(&p, true, true, true, false), RenameStep::SkipUnchanged);
    assert_eq!(plan_rename(&p, true, false, false, true), RenameStep::Preview);
    assert_eq!(plan_rename(&p, true, false, true, false), RenameStep::Rename);
    assert_eq!(plan_rename(&p, true, false, true, true), RenameStep::Ask);
    assert!(apply_choice(&mut p, ConflictChoice::Yes));
    assert!(!apply_choice(&mut p, ConflictChoice::No));
    assert!(apply_choice(&mut p, ConflictChoice::All));
    assert_eq!(plan_rename(&p, true, false, true, true), RenameStep::Rename);
    assert!(!apply_choice(&mut p, ConflictChoice::SkipAll));
    assert_eq!(plan_rename(&p, true, false, true, true), RenameStep::Skip);
}

#[test]
fn parse_choice_replies() {
    assert_eq!(parse_choice(" YES "), Some(ConflictChoice::Yes));
    assert_eq!(parse_choice("y"), Some(ConflictChoice::Yes));
    assert_eq!(parse_choice("No"), Some(ConflictChoice::No));
    assert_eq!(parse_choice("a"), Some(ConflictChoice::All));
    assert_eq!(parse_choice("Skip All\n"), Some(ConflictChoice::SkipAll));
    assert_eq!(parse_choice("s"), Some(ConflictChoice::SkipAll));
    assert_eq!(parse_choice("maybe"), None);
}

#[test]
fn same_path_compares_components() {
    assert!(same_path("a//b/./c.epub", "a/b/c.epub"));
    assert!(same_path("/x/", "/x"));
    assert!(!same_path("a/b", "a/c"));
    assert!(!same_path("/a", "a"));
}

#[test]
fn error_messages() {
    assert_eq!(EruError::PathNotFound("x".to_string()).message(), "Path not found: x");
    assert_eq!(EruError::NotAnEpub("b.pdf".to_string()).message(), "Not an EPUB file: b.pdf");
}

#[test]
fn enrich_destination_rules() {
    assert_eq!(enrich_dest_dir("in/x.epub", None), "in");
    assert_eq!(enrich_dest_dir("x.epub", None), "");
    assert_eq!(enrich_dest_dir("in/x.epub", Some("/srv/ingest")), "/srv/ingest");
    assert_eq!(enrich_destination("in/./x.epub", None, "A - B.epub"), "in/A - B.epub");
    assert_eq!(enrich_destination("x.epub", None, "A.epub"), "A.epub");
    assert_eq!(enrich_destination("in/x.epub", Some("/srv/ingest/"), "A.epub"), "/srv/ingest/A.epub");
}

#[test]
fn choice_for_lowered_matches_exact_replies() {
    assert_eq!(choice_for_lowered("skip all"), Some(ConflictChoice::SkipAll));
    assert_eq!(choice_for_lowered("yes"), Some(ConflictChoice::Yes));
    assert_eq!(choice_for_lowered("YES"), None);
    assert_eq!(choice_for_lowered(" y"), None);
}
