use flashcard_core::matching::measure_keys;
use flashcard_core::settings::{DeckOverrides, StudySettings};
use flashcard_core::sync_engine::{SyncEvent, SyncMachine, SyncStage};
use flashcard_core::types::{Algorithm, MatchingMode, RatingScale};

#[test]
fn merge_without_deck_is_global() {
    let g = StudySettings::defaults();
    assert_eq!(StudySettings::merge(&g, None), g);
    assert_eq!(StudySettings::merge(&g, Some(DeckOverrides::none())), g);
    assert_eq!(g.new_cards_per_day, 20);
    assert_eq!(g.reviews_per_day, 200);
}

#[test]
fn merge_applies_overrides_but_not_reset_hour() {
    let mut g = StudySettings::defaults();
    g.daily_reset_hour = 4;
    let d = DeckOverrides {
        algorithm: Some(Algorithm::Fsrs),
        rating_scale: None,
        matching_mode: Some(MatchingMode::Exact),
        new_cards_per_day: Some(5),
        reviews_per_day: None,
    };
    let m = StudySettings::merge(&g, Some(d));
    assert_eq!(m.algorithm, Algorithm::Fsrs);
    assert_eq!(m.rating_scale, RatingScale::FourPoint);
    assert_eq!(m.matching_mode, MatchingMode::Exact);
    assert_eq!(m.new_cards_per_day, 5);
    assert_eq!(m.reviews_per_day, 200);
    assert_eq!(m.daily_reset_hour, 4);
}

#[test]
fn measure_of_prepared_answers() {
    assert_eq!(measure_keys("helo", "hello", MatchingMode::Fuzzy), (1, 5));
    assert_eq!(measure_keys("abc", "abc", MatchingMode::Exact), (0, 1));
    assert_eq!(measure_keys("abc", "abd", MatchingMode::CaseInsensitive), (1, 1));
    assert_eq!(measure_keys("", "", MatchingMode::Fuzzy), (0, 0));
}

#[test]
fn stages_follow_phases() {
    let mut m = SyncMachine::new(None, 0);
    assert_eq!(m.stage(0, 3), None);
    m.advance(SyncEvent::Start);
    assert_eq!(m.stage(0, 3), Some(SyncStage::Connecting));
    m.advance(SyncEvent::HealthChecked { reachable: true });
    assert_eq!(m.stage(1, 3), Some(SyncStage::UploadingFiles { current: 1, total: 3 }));
    m.advance(SyncEvent::Uploaded { files: 3, new_ids: 0, orphans: 0 });
    assert_eq!(m.stage(0, 3), Some(SyncStage::PushingReviews { count: 0 }));
}
