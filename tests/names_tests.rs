use flashcard_core::types::{CardStatus, MatchingMode, RatingScale};

#[test]
fn test_db_card_state_status_parsing() {
    let cases = [
        ("new", CardStatus::New),
        ("learning", CardStatus::Learning),
        ("review", CardStatus::Review),
        ("relearning", CardStatus::Relearning),
        ("unknown", CardStatus::New),
        ("", CardStatus::New),
    ];
    for (status_str, expected) in cases {
        assert_eq!(CardStatus::from_name(status_str), expected);
    }
}

#[test]
fn status_names_round_trip() {
    for s in [CardStatus::New, CardStatus::Learning, CardStatus::Review, CardStatus::Relearning] {
        assert_eq!(CardStatus::from_name(s.name()), s);
    }
    assert_eq!(CardStatus::Relearning.name(), "relearning");
}

#[test]
fn setting_names() {
    assert_eq!(RatingScale::from_name("2point"), RatingScale::TwoPoint);
    assert_eq!(RatingScale::from_name("4point"), RatingScale::FourPoint);
    assert_eq!(RatingScale::from_name("other"), RatingScale::FourPoint);
    assert_eq!(RatingScale::TwoPoint.name(), "2point");
    assert_eq!(MatchingMode::from_name("exact"), MatchingMode::Exact);
    assert_eq!(MatchingMode::from_name("case_insensitive"), MatchingMode::CaseInsensitive);
    assert_eq!(MatchingMode::from_name("fuzzy"), MatchingMode::Fuzzy);
    assert_eq!(MatchingMode::from_name("EXACT"), MatchingMode::Fuzzy);
    assert_eq!(MatchingMode::CaseInsensitive.name(), "case_insensitive");
}
