use flashcard_core::error::ParseError;
use flashcard_core::filesync::{
    deck_path_for_file, extract_deck_path, hash_content, hex_lower, parse_md_content,
    regenerate_md_with_ids,
};
use flashcard_core::models::NewIdAssignment;

#[test]
fn test_parse_simple_card() {
    let content = "ID: 1\nQ: What is Rust?\nA: A systems programming language.";
    let result = parse_md_content(content).unwrap();
    assert_eq!(result.cards.len(), 1);
    assert_eq!(result.cards[0].id, Some(1));
    assert_eq!(result.cards[0].question, "What is Rust?");
    assert_eq!(result.cards[0].answer, "A systems programming language.");
}

#[test]
fn test_parse_card_without_id() {
    let content = "Q: What is a closure?\nA: A function that captures its environment.";
    let result = parse_md_content(content).unwrap();
    assert_eq!(result.cards.len(), 1);
    assert_eq!(result.cards[0].id, None);
    assert_eq!(result.cards[0].line, 1);
}

#[test]
fn test_parse_multiline_answer() {
    let content = "ID: 2\nQ: What are ownership rules?\nA: 1. Each value has one owner\n2. There can be one owner at a time\n3. When owner goes out of scope, value is dropped";
    let result = parse_md_content(content).unwrap();
    assert_eq!(result.cards.len(), 1);
    assert!(result.cards[0].answer.contains("1. Each value"));
    assert!(result.cards[0].answer.contains("3. When owner"));
}

#[test]
fn test_regenerate_with_ids() {
    let content = "Q: What is Rust?\nA: A language.\n";
    let new_ids = vec![NewIdAssignment { path: "test.md".to_string(), line: 1, id: 42 }];
    let result = regenerate_md_with_ids(content, &new_ids);
    assert!(result.starts_with("ID: 42\n"));
}

#[test]
fn test_hash_content() {
    let hash = hash_content("test content");
    assert!(!hash.is_empty());
    assert_eq!(hash.len(), 64);
}

#[test]
fn test_extract_deck_path() {
    assert_eq!(extract_deck_path("rust/ownership.md"), "rust");
    assert_eq!(extract_deck_path("prog/rust/basics.md"), "prog/rust");
    assert_eq!(extract_deck_path("single.md"), "");
}

#[test]
fn test_parse_multiple_cards() {
    let content = "ID: 1\nQ: First question?\nA: First answer.\n\nID: 2\nQ: Second question?\nA: Second answer.";
    let result = parse_md_content(content).unwrap();
    assert_eq!(result.cards.len(), 2);
    assert_eq!(result.cards[0].id, Some(1));
    assert_eq!(result.cards[0].question, "First question?");
    assert_eq!(result.cards[1].id, Some(2));
    assert_eq!(result.cards[1].question, "Second question?");
}

#[test]
fn test_parse_card_with_empty_id() {
    let content = "ID:\nQ: Question?\nA: Answer.";
    let result = parse_md_content(content).unwrap();
    assert_eq!(result.cards.len(), 1);
    assert_eq!(result.cards[0].id, None);
}

#[test]
fn test_parse_invalid_id_returns_error() {
    let content = "ID: not_a_number\nQ: Question?\nA: Answer.";
    let result = parse_md_content(content);
    assert!(result.is_err());
}

#[test]
fn test_parse_card_missing_answer() {
    let content = "ID: 1\nQ: Question without answer";
    let result = parse_md_content(content).unwrap();
    assert_eq!(result.cards.len(), 0);
}

#[test]
fn test_parse_card_missing_question() {
    let content = "ID: 1\nA: Answer without question";
    let result = parse_md_content(content).unwrap();
    assert_eq!(result.cards.len(), 0);
}

#[test]
fn test_parse_empty_content() {
    let result = parse_md_content("").unwrap();
    assert_eq!(result.cards.len(), 0);
}

#[test]
fn test_parse_content_with_only_whitespace() {
    let result = parse_md_content("   \n\n   \t  ").unwrap();
    assert_eq!(result.cards.len(), 0);
}

#[test]
fn test_parse_cards_without_ids_multiple() {
    let content = "ID:\nQ: First?\nA: First.\n\nID:\nQ: Second?\nA: Second.";
    let result = parse_md_content(content).unwrap();
    assert_eq!(result.cards.len(), 2);
    assert_eq!(result.cards[0].id, None);
    assert_eq!(result.cards[0].line, 1);
    assert_eq!(result.cards[1].id, None);
    assert_eq!(result.cards[1].line, 5);
}

#[test]
fn test_regenerate_preserves_original_when_no_ids() {
    let content = "ID: 1\nQ: Question?\nA: Answer.";
    let result = regenerate_md_with_ids(content, &[]);
    assert_eq!(result, content);
}

#[test]
fn test_regenerate_multiple_ids() {
    let content = "Q: First?\nA: First.\n\nQ: Second?\nA: Second.";
    let new_ids = vec![
        NewIdAssignment { path: "test.md".to_string(), line: 1, id: 100 },
        NewIdAssignment { path: "test.md".to_string(), line: 4, id: 101 },
    ];
    let result = regenerate_md_with_ids(content, &new_ids);
    assert!(result.contains("ID: 100\nQ: First?"));
    assert!(result.contains("ID: 101\nQ: Second?"));
}

#[test]
fn test_hash_deterministic() {
    let content = "test content";
    let hash1 = hash_content(content);
    let hash2 = hash_content(content);
    assert_eq!(hash1, hash2);
}

#[test]
fn test_hash_different_content() {
    let hash1 = hash_content("content 1");
    let hash2 = hash_content("content 2");
    assert_ne!(hash1, hash2);
}

#[test]
fn test_hash_empty_string() {
    let hash = hash_content("");
    assert_eq!(hash.len(), 64);
}

#[test]
fn test_extract_deck_path_nested() {
    assert_eq!(extract_deck_path("a/b/c/d.md"), "a/b/c");
}

#[test]
fn test_extract_deck_path_with_spaces() {
    assert_eq!(extract_deck_path("my decks/rust/basics.md"), "my decks/rust");
}

#[test]
fn hash_of_known_inputs() {
    assert_eq!(
        hash_content(""),
        "e3b0c44298fc1c149afbf4c8996fb92427ae41e4649b934ca495991b7852b855"
    );
    assert_eq!(
        hash_content("abc"),
        "ba7816bf8f01cfea414140de5dae2223b00361a396177a9cb410ff61f20015ad"
    );
}

#[test]
fn hex_of_bytes() {
    assert_eq!(hex_lower(&[0x00, 0x0f, 0xa0, 0xff]), "000fa0ff");
    assert_eq!(hex_lower(&[]), "");
}

#[test]
fn deck_path_of_root_file_is_its_stem() {
    assert_eq!(deck_path_for_file("single.md"), "single");
    assert_eq!(deck_path_for_file("notes.md.md"), "notes");
    assert_eq!(deck_path_for_file("rust/ownership.md"), "rust");
    assert_eq!(deck_path_for_file("plain"), "plain");
}

#[test]
fn upload_assigns_id_to_first_line() {
    let content = "Q: A?\nA: B.\n";
    let parsed = parse_md_content(content).unwrap();
    assert_eq!(parsed.cards[0].line, 1);
    let new_ids = vec![NewIdAssignment { path: "rust/ownership.md".to_string(), line: 1, id: 77 }];
    let updated = regenerate_md_with_ids(content, &new_ids);
    assert_eq!(updated, "ID: 77\nQ: A?\nA: B.\n");
    let again = parse_md_content(&updated).unwrap();
    assert_eq!(again.cards[0].id, Some(77));
}

#[test]
fn server_parse_rejects_duplicate_ids() {
    let result = parse_md_content("ID: 3\nQ: a\nA: b\n\nID: 3\nQ: c\nA: d");
    match result {
        Err(ParseError::DuplicateId { id, line }) => {
            assert_eq!(id, 3);
            assert_eq!(line, 5);
        }
        _ => panic!("expected a duplicate ID error"),
    }
}
