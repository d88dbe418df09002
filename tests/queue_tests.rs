use flashcard_core::dates::study_day;
use flashcard_core::queue::{new_queue, remaining, review_queue, QueueEntry};
use flashcard_core::types::CardStatus;

fn entry(card_id: i64, status: Option<CardStatus>, due_day: Option<i32>) -> QueueEntry {
    QueueEntry { card_id, status, due_day }
}

#[test]
fn queue_surfaces_yesterdays_card_before_reset_hour() {
    let today = 739_500;
    let study = study_day(today, 3, 4);
    let cards = vec![
        entry(1, Some(CardStatus::Review), Some(today)),
        entry(2, Some(CardStatus::Review), Some(today - 1)),
    ];
    assert_eq!(review_queue(&cards, study, 200), vec![2]);
    assert_eq!(review_queue(&cards, study_day(today, 5, 4), 200), vec![2, 1]);
}

#[test]
fn new_queue_in_id_order_and_limited() {
    let cards = vec![
        entry(9, None, None),
        entry(3, Some(CardStatus::New), None),
        entry(5, Some(CardStatus::Learning), Some(1)),
        entry(4, None, None),
    ];
    assert_eq!(new_queue(&cards, 20), vec![3, 4, 9]);
    assert_eq!(new_queue(&cards, 2), vec![3, 4]);
    assert!(new_queue(&cards, 0).is_empty());
}

#[test]
fn review_queue_by_due_then_id() {
    let cards = vec![
        entry(7, Some(CardStatus::Relearning), Some(10)),
        entry(2, Some(CardStatus::Review), Some(12)),
        entry(4, Some(CardStatus::Learning), Some(10)),
        entry(8, Some(CardStatus::New), Some(1)),
        entry(6, Some(CardStatus::Review), None),
        entry(1, Some(CardStatus::Review), Some(13)),
    ];
    assert_eq!(review_queue(&cards, 12, 200), vec![4, 7, 2]);
    assert_eq!(review_queue(&cards, 12, 1), vec![4]);
}

#[test]
fn remaining_never_negative() {
    assert_eq!(remaining(20, 3), 17);
    assert_eq!(remaining(20, 20), 0);
    assert_eq!(remaining(2, 5), 0);
}
