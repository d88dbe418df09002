use flashcard_core::error::ParseError;
use flashcard_core::parser::{inject_ids, parse};

#[test]
fn parse_single_card() {
    let input = "ID: 1\nQ: What is Rust?\nA: A systems programming language.";
    let cards = parse(input).unwrap();
    assert_eq!(cards.len(), 1);
    assert_eq!(cards[0].id, Some(1));
    assert_eq!(cards[0].question, "What is Rust?");
    assert_eq!(cards[0].answer, "A systems programming language.");
}

#[test]
fn parse_card_without_id() {
    let input = "Q: What is Rust?\nA: A language.";
    let cards = parse(input).unwrap();
    assert_eq!(cards.len(), 1);
    assert_eq!(cards[0].id, None);
}

#[test]
fn parse_multiline_answer() {
    let input = "ID: 1\nQ: Explain\nA: Line 1\nLine 2\n\nLine 4";
    let cards = parse(input).unwrap();
    assert_eq!(cards[0].answer, "Line 1\nLine 2\n\nLine 4");
}

#[test]
fn parse_multiple_cards() {
    let input = "ID: 1\nQ: Q1\nA: A1\n\nID: 2\nQ: Q2\nA: A2";
    let cards = parse(input).unwrap();
    assert_eq!(cards.len(), 2);
    assert_eq!(cards[0].id, Some(1));
    assert_eq!(cards[1].id, Some(2));
}

#[test]
fn parse_mixed_id_and_no_id() {
    let input = "Q: No ID\nA: Answer\n\nID: 5\nQ: Has ID\nA: Answer2";
    let cards = parse(input).unwrap();
    assert_eq!(cards.len(), 2);
    assert_eq!(cards[0].id, None);
    assert_eq!(cards[1].id, Some(5));
}

#[test]
fn reject_duplicate_ids() {
    let input = "ID: 1\nQ: Q1\nA: A1\n\nID: 1\nQ: Q2\nA: A2";
    let result = parse(input);
    assert!(matches!(result, Err(ParseError::DuplicateId { id: 1, .. })));
}

// A block with an answer but no question is dropped without an error.
#[test]
fn reject_missing_question() {
    let input = "ID: 1\nA: Answer only";
    let result = parse(input);
    assert!(matches!(result, Ok(ref cards) if cards.is_empty()));
}

// A block with a question but no answer is dropped without an error.
#[test]
fn reject_missing_answer() {
    let input = "ID: 1\nQ: Question only";
    let result = parse(input);
    assert!(matches!(result, Ok(ref cards) if cards.is_empty()));
}

#[test]
fn parse_empty_content() {
    let cards = parse("").unwrap();
    assert!(cards.is_empty());
}

#[test]
fn inject_ids_works() {
    let content = "Q: New card\nA: Answer";
    let result = inject_ids(content, &[(1, 42)]);
    assert!(result.starts_with("ID: 42\n"));
}

#[test]
fn duplicate_id_reports_line_of_second_card() {
    let input = "ID: 7\nQ: Q1\nA: A1\n\nID: 7\nQ: Q2\nA: A2";
    match parse(input) {
        Err(ParseError::DuplicateId { id, line }) => {
            assert_eq!(id, 7);
            assert_eq!(line, 5);
        }
        other => panic!("unexpected {:?}", other),
    }
}

#[test]
fn invalid_id_reports_line_and_value() {
    let input = "Q: a\nA: b\n\nID: 12x\nQ: c\nA: d";
    match parse(input) {
        Err(ParseError::InvalidId { line, value }) => {
            assert_eq!(line, 4);
            assert_eq!(value, "12x");
        }
        other => panic!("unexpected {:?}", other),
    }
}

#[test]
fn empty_id_counts_as_absent() {
    let cards = parse("ID:\nQ: q\nA: a").unwrap();
    assert_eq!(cards.len(), 1);
    assert_eq!(cards[0].id, None);
    assert_eq!(cards[0].line_number, 1);
}

#[test]
fn negative_and_signed_ids() {
    let cards = parse("ID: -3\nQ: q\nA: a\nID: +4\nQ: r\nA: b").unwrap();
    assert_eq!(cards[0].id, Some(-3));
    assert_eq!(cards[1].id, Some(4));
    assert!(parse("ID: 9223372036854775808\nQ: q\nA: a").is_err());
    assert_eq!(parse("ID: -9223372036854775808\nQ: q\nA: a").unwrap()[0].id, Some(i64::MIN));
}

#[test]
fn question_line_starts_a_new_card() {
    let cards = parse("Q:Q1\nA:A1\n\nQ:Q2\nA:A2").unwrap();
    assert_eq!(cards.len(), 2);
    assert_eq!(cards[0].question, "Q1");
    assert_eq!(cards[0].answer, "A1");
    assert_eq!(cards[0].line_number, 1);
    assert_eq!(cards[1].question, "Q2");
    assert_eq!(cards[1].line_number, 4);
}

#[test]
fn continuation_lines_round_trip() {
    let cards = parse("Q:   What\n  spans\nlines?  \nA:  It does.  \n").unwrap();
    assert_eq!(cards.len(), 1);
    assert_eq!(cards[0].question, "What\n  spans\nlines?");
    assert_eq!(cards[0].answer, "It does.");
}

#[test]
fn whitespace_only_content_has_no_cards() {
    assert!(parse("  \n\t\n ").unwrap().is_empty());
}

#[test]
fn crlf_line_endings() {
    let cards = parse("ID: 3\r\nQ: q\r\nA: a\r\n").unwrap();
    assert_eq!(cards.len(), 1);
    assert_eq!(cards[0].id, Some(3));
    assert_eq!(cards[0].question, "q");
    assert_eq!(cards[0].answer, "a");
}

#[test]
fn inject_nothing_keeps_text() {
    let text = "Q: a\r\nA: b\n\n";
    assert_eq!(inject_ids(text, &[]), text);
}

#[test]
fn inject_keeps_trailing_newline_policy() {
    assert_eq!(inject_ids("Q: a\nA: b\n", &[(1, 5)]), "ID: 5\nQ: a\nA: b\n");
    assert_eq!(inject_ids("Q: a\nA: b", &[(1, -5)]), "ID: -5\nQ: a\nA: b");
}

#[test]
fn inject_last_entry_for_a_line_wins() {
    assert_eq!(inject_ids("x\ny", &[(2, 1), (2, 2)]), "x\nID: 2\ny");
    assert_eq!(inject_ids("x\n", &[(2, 9)]), "x\n");
}

#[test]
fn injected_ids_parse_back() {
    let text = "Q: one\nA: 1\n\nQ: two\nA: 2\n";
    let cards = parse(text).unwrap();
    let asg: Vec<(usize, i64)> = vec![(cards[0].line_number, 10), (cards[1].line_number, 11)];
    let out = inject_ids(text, &asg);
    let again = parse(&out).unwrap();
    assert_eq!(again.len(), 2);
    assert_eq!(again[0].id, Some(10));
    assert_eq!(again[0].question, "one");
    assert_eq!(again[1].id, Some(11));
    assert_eq!(again[1].answer, "2");
}

#[test]
fn injected_ids_parse_back_with_crlf_and_blank_tail() {
    let text = "Q: one\r\nA: 1\r\n\r\nQ: two\r\nmore\r\nA: 2\r\n\r\n\r\n";
    let cards = parse(text).unwrap();
    assert_eq!(cards.len(), 2);
    let asg: Vec<(usize, i64)> = vec![(cards[0].line_number, 70), (cards[1].line_number, 71)];
    let again = parse(&inject_ids(text, &asg)).unwrap();
    assert_eq!(again.len(), 2);
    assert_eq!(again[0].id, Some(70));
    assert_eq!(again[0].line_number, cards[0].line_number);
    assert_eq!(again[1].id, Some(71));
    assert_eq!(again[1].question, "two\nmore");
    assert_eq!(again[1].line_number, cards[1].line_number + 1);
}

#[test]
fn padded_and_blank_field_lines_round_trip() {
    let cards = parse("Q:\n  What\n\nnext\nA:   it\n more").unwrap();
    assert_eq!(cards.len(), 1);
    assert_eq!(cards[0].question, "What\n\nnext");
    assert_eq!(cards[0].answer, "it\n more");
    assert_eq!(cards[0].line_number, 1);
}
