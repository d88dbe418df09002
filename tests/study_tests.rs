use flashcard_core::dates::{due_for_review, get_adjusted_today_string, study_day, study_day_text, LocalClock};
use flashcard_core::schedule::{determine_status, fsrs_counts, sm2_counts};
use flashcard_core::types::{Algorithm, CardStatus, Rating};

#[test]
fn test_format_string() {
    let result = get_adjusted_today_string(0);
    assert_eq!(result.len(), 10);
    assert_eq!(&result[4..5], "-");
    assert_eq!(&result[7..8], "-");
}

#[test]
fn study_day_before_reset_is_yesterday() {
    let today = 739_000;
    assert_eq!(study_day(today, 3, 4), today - 1);
    assert_eq!(study_day(today, 4, 4), today);
    assert_eq!(study_day(today, 23, 0), today);
}

#[test]
fn queue_filter_at_half_past_three() {
    let today = 739_000;
    let study = study_day(today, 3, 4);
    assert!(due_for_review(CardStatus::Review, Some(today - 1), study));
    assert!(!due_for_review(CardStatus::Review, Some(today), study));
    assert!(due_for_review(CardStatus::Learning, Some(today - 5), study));
    assert!(!due_for_review(CardStatus::New, Some(today - 5), study));
    assert!(!due_for_review(CardStatus::Relearning, None, study));
}

#[test]
fn sm2_lapse_counters() {
    let r = sm2_counts(CardStatus::Review, 0, 5, Rating::Again);
    assert_eq!(r.status, CardStatus::Relearning);
    assert_eq!(r.lapses, 1);
    assert_eq!(r.reviews_count, 6);
}

#[test]
fn sm2_learning_transitions() {
    assert_eq!(sm2_counts(CardStatus::New, 0, 0, Rating::Good).status, CardStatus::Review);
    assert_eq!(sm2_counts(CardStatus::New, 0, 0, Rating::Easy).status, CardStatus::Review);
    assert_eq!(sm2_counts(CardStatus::New, 0, 0, Rating::Hard).status, CardStatus::Learning);
    let r = sm2_counts(CardStatus::Learning, 2, 3, Rating::Again);
    assert_eq!(r.status, CardStatus::Learning);
    assert_eq!(r.lapses, 2);
    assert_eq!(r.reviews_count, 4);
    assert_eq!(sm2_counts(CardStatus::Relearning, 1, 3, Rating::Hard).status, CardStatus::Review);
}

#[test]
fn fsrs_status_and_counters() {
    assert_eq!(determine_status(CardStatus::New, Rating::Again), CardStatus::Learning);
    assert_eq!(determine_status(CardStatus::Review, Rating::Again), CardStatus::Relearning);
    assert_eq!(determine_status(CardStatus::Relearning, Rating::Good), CardStatus::Review);
    let first = fsrs_counts(CardStatus::New, 0, 0, true, Rating::Again);
    assert_eq!(first.lapses, 0);
    assert_eq!(first.reviews_count, 1);
    let later = fsrs_counts(CardStatus::Review, 1, 7, false, Rating::Again);
    assert_eq!(later.status, CardStatus::Relearning);
    assert_eq!(later.lapses, 2);
    assert_eq!(later.reviews_count, 8);
}

#[test]
fn rating_values_round_trip() {
    for v in 1u8..=4 {
        assert_eq!(Rating::from_value(v).unwrap().to_value(), v);
    }
    assert_eq!(Rating::from_value(0), None);
    assert_eq!(Rating::from_value(5), None);
    assert_eq!(Rating::from_2point(true), Rating::Good);
    assert_eq!(Rating::from_2point(false), Rating::Again);
}

#[test]
fn algorithm_names() {
    assert_eq!(Algorithm::Sm2.as_str(), "sm2");
    assert_eq!(Algorithm::Fsrs.as_str(), "fsrs");
    assert_eq!(Algorithm::from_str("fsrs"), Some(Algorithm::Fsrs));
    assert_eq!(Algorithm::from_str("sm2"), Some(Algorithm::Sm2));
    assert_eq!(Algorithm::from_str("SM2"), None);
}

#[test]
fn fsrs_first_review_again_goes_to_learning() {
    let r = fsrs_counts(CardStatus::Review, 2, 0, true, Rating::Again);
    assert_eq!(r.status, CardStatus::Learning);
    assert_eq!(r.lapses, 2);
    assert_eq!(fsrs_counts(CardStatus::Relearning, 0, 0, true, Rating::Hard).status, CardStatus::Review);
}

#[test]
fn counters_at_lapse_limit_without_lapse() {
    let r = sm2_counts(CardStatus::Review, u32::MAX, 1, Rating::Good);
    assert_eq!(r.lapses, u32::MAX);
    assert_eq!(r.reviews_count, 2);
    let f = fsrs_counts(CardStatus::Review, u32::MAX, 4, false, Rating::Easy);
    assert_eq!(f.lapses, u32::MAX);
    assert_eq!(f.reviews_count, 5);
}

#[test]
fn study_day_text_of_clock_readings() {
    assert_eq!(study_day_text(LocalClock { day: 719_163, hour: 3 }, 4), "1969-12-31");
    assert_eq!(study_day_text(LocalClock { day: 719_163, hour: 4 }, 4), "1970-01-01");
    assert_eq!(study_day_text(LocalClock { day: 730_000, hour: 12 }, 0), "1999-09-03");
}
