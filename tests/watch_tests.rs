use flashcard_core::schedule::coerce_rating;
use flashcard_core::types::Rating;
use flashcard_core::watch::{
    change_kind_name, is_card_file, store_update_for, watched_deck_name, FileChange, StoreUpdate,
};

#[test]
fn card_files_are_recognized() {
    assert!(is_card_file("decks/rust/ownership.md"));
    assert!(is_card_file("a.md"));
    assert!(!is_card_file(".md"));
    assert!(!is_card_file("notes/.md"));
    assert!(!is_card_file("notes/readme.txt"));
    assert!(!is_card_file("dir.md/file"));
    assert!(!is_card_file(""));
}

#[test]
fn watched_deck_is_parent_directory_name() {
    assert_eq!(watched_deck_name("/home/u/decks/rust/ownership.md"), "rust");
    assert_eq!(watched_deck_name("rust/ownership.md"), "rust");
    assert_eq!(watched_deck_name("single.md"), "");
}

#[test]
fn file_changes_map_to_store_updates() {
    assert_eq!(store_update_for(FileChange::Created), StoreUpdate::Import);
    assert_eq!(store_update_for(FileChange::Modified), StoreUpdate::Import);
    assert_eq!(store_update_for(FileChange::Deleted), StoreUpdate::SoftDelete);
    assert_eq!(store_update_for(FileChange::Renamed), StoreUpdate::Nothing);
    assert_eq!(change_kind_name(FileChange::Renamed), "renamed");
    assert_eq!(change_kind_name(FileChange::Deleted), "deleted");
}

#[test]
fn unknown_ratings_become_good() {
    assert_eq!(coerce_rating(1), Rating::Again);
    assert_eq!(coerce_rating(4), Rating::Easy);
    assert_eq!(coerce_rating(0), Rating::Good);
    assert_eq!(coerce_rating(257), Rating::Good);
    assert_eq!(coerce_rating(-3), Rating::Good);
}

#[test]
fn watched_deck_follows_path_components() {
    assert_eq!(watched_deck_name("a//b.md"), "a");
    assert_eq!(watched_deck_name("a/./b.md"), "a");
    assert_eq!(watched_deck_name("a/../b.md"), "");
    assert_eq!(watched_deck_name("./b.md"), "");
    assert_eq!(watched_deck_name("/b.md"), "");
    assert_eq!(watched_deck_name("/x/y/b.md/"), "y");
}
