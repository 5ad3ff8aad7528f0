use eru::matcher::{norm, norm_lowered, norm_name};

#[test]
fn norm_lowercases_and_strips_punctuation() {
    assert_eq!(norm("Dune: The  Book!"), "dune the book");
    assert_eq!(norm("  ÉTÉ -- 42 "), "été 42");
    assert_eq!(norm("!!!"), "");
}

#[test]
fn norm_name_ignores_word_order() {
    assert_eq!(norm_name("Austen, Jane"), "austen jane");
    assert_eq!(norm_name("Jane Austen"), norm_name("Austen, Jane"));
    assert_eq!(norm_name("Herbert, Frank"), norm_name("Frank Herbert"));
    assert_ne!(norm_name("William Gibson"), norm_name("Frank Herbert"));
}

#[test]
fn norm_lowered_keeps_case_and_maps_punctuation() {
    assert_eq!(norm_lowered("dune: the  book!"), "dune the book");
    assert_eq!(norm_lowered("Dune"), "Dune");
}
