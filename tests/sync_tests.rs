use flashcard_core::desktop::CommandError;
use flashcard_core::filesync::{deck_path_for_file, parse_md_content, regenerate_md_with_ids};
use flashcard_core::sync_engine::{ReviewOutbox, SyncAction, SyncEvent, SyncMachine, SyncPhase};
use flashcard_core::upload::{assign_card_ids, count_missing_ids, orphan_ids};

#[test]
fn clean_cycle_sets_watermark() {
    let mut m = SyncMachine::new(Some(100), 3);
    assert_eq!(m.advance(SyncEvent::Start), SyncAction::ProbeHealth);
    assert_eq!(m.advance(SyncEvent::Start), SyncAction::RejectAlreadyInProgress);
    assert_eq!(m.advance(SyncEvent::HealthChecked { reachable: true }), SyncAction::UploadFiles);
    assert_eq!(
        m.advance(SyncEvent::Uploaded { files: 2, new_ids: 1, orphans: 0 }),
        SyncAction::PushPendingReviews
    );
    assert_eq!(m.advance(SyncEvent::ReviewsPushed { count: 4 }), SyncAction::PullState);
    assert_eq!(m.advance(SyncEvent::Pulled { states: 5 }), SyncAction::ApplyChanges);
    assert_eq!(m.advance(SyncEvent::Applied { cards: 6 }), SyncAction::WriteFiles);
    assert_eq!(m.advance(SyncEvent::FilesWritten { now: 200 }), SyncAction::RecordSyncTime);
    assert_eq!(m.phase, SyncPhase::Completed);
    assert_eq!(m.last_sync_at, Some(200));
    assert_eq!(m.pending_changes, 0);
    assert_eq!(m.stats.reviews_synced, 4);
    assert_eq!(m.stats.cards_created, 1);
}

#[test]
fn orphans_pause_the_cycle() {
    let mut m = SyncMachine::new(None, 0);
    m.advance(SyncEvent::Start);
    m.advance(SyncEvent::HealthChecked { reachable: true });
    assert_eq!(
        m.advance(SyncEvent::Uploaded { files: 1, new_ids: 0, orphans: 1 }),
        SyncAction::AskAboutOrphans
    );
    assert_eq!(m.phase, SyncPhase::AwaitingOrphanConfirmation);
    assert_eq!(m.advance(SyncEvent::ReviewsPushed { count: 1 }), SyncAction::Nothing);
    assert_eq!(
        m.advance(SyncEvent::OrphansResolved { deleted: 1 }),
        SyncAction::PushPendingReviews
    );
    assert_eq!(m.stats.orphans_deleted, 1);
}

#[test]
fn unreachable_backend_fails() {
    let mut m = SyncMachine::new(None, 2);
    m.advance(SyncEvent::Start);
    assert_eq!(m.advance(SyncEvent::HealthChecked { reachable: false }), SyncAction::ReportFailure);
    assert_eq!(m.phase, SyncPhase::Failed);
    assert_eq!(m.pending_changes, 2);
    assert_eq!(m.last_sync_at, None);
    m.record_local_change();
    assert_eq!(m.pending_changes, 3);
}

#[test]
fn failed_request_keeps_watermark() {
    let mut m = SyncMachine::new(Some(5), 1);
    m.advance(SyncEvent::Start);
    m.advance(SyncEvent::HealthChecked { reachable: true });
    m.advance(SyncEvent::Uploaded { files: 1, new_ids: 0, orphans: 0 });
    assert_eq!(m.advance(SyncEvent::RequestFailed), SyncAction::ReportFailure);
    assert_eq!(m.last_sync_at, Some(5));
    assert_eq!(m.pending_changes, 1);
}

#[test]
fn id_assignment_for_new_cards() {
    let parsed = parse_md_content("Q: A?\nA: B.\n").unwrap();
    assert_eq!(count_missing_ids(&parsed.cards), 1);
    let plan = assign_card_ids("rust/ownership.md", &parsed.cards, &[31]);
    assert_eq!(plan.card_ids, vec![31]);
    assert_eq!(plan.new_ids.len(), 1);
    assert_eq!(plan.new_ids[0].path, "rust/ownership.md");
    assert_eq!(plan.new_ids[0].line, 1);
    assert_eq!(plan.new_ids[0].id, 31);
}

#[test]
fn reupload_with_known_ids_needs_none() {
    let parsed = parse_md_content("ID: 4\nQ: a\nA: b\n\nID: 9\nQ: c\nA: d").unwrap();
    assert_eq!(count_missing_ids(&parsed.cards), 0);
    let plan = assign_card_ids("t.md", &parsed.cards, &[]);
    assert!(plan.new_ids.is_empty());
    assert_eq!(plan.card_ids, vec![4, 9]);
}

#[test]
fn orphan_flow_reports_dropped_card() {
    let first = parse_md_content("Q:Q1\nA:A1\n\nQ:Q2\nA:A2").unwrap();
    assert_eq!(first.cards.len(), 2);
    let plan = assign_card_ids("test.md", &first.cards, &[1, 2]);
    assert_eq!(plan.card_ids, vec![1, 2]);
    let second = parse_md_content("ID: 1\nQ:Q1\nA:A1").unwrap();
    let present: Vec<i64> = second.cards.iter().map(|c| c.id.unwrap()).collect();
    assert_eq!(orphan_ids(&plan.card_ids, &present), vec![2]);
}

#[test]
fn orphans_keep_known_order() {
    assert_eq!(orphan_ids(&[5, 1, 7, 3], &[7]), vec![5, 1, 3]);
    assert!(orphan_ids(&[], &[1]).is_empty());
}

#[test]
fn database_error_message() {
    assert_eq!(CommandError::database("locked").message, "Database error: locked");
    assert_eq!(CommandError::new("x".to_string()).message, "x");
}

#[test]
fn review_recorded_before_push_is_in_batch() {
    let mut outbox = ReviewOutbox::new(vec![1, 2]);
    outbox.record(3);
    let batch = outbox.start_push();
    assert_eq!(batch, vec![1, 2, 3]);
    outbox.record(4);
    assert_eq!(outbox.pending(), &vec![4]);
    assert_eq!(outbox.acknowledge(), vec![1, 2, 3]);
    assert!(outbox.in_flight().is_empty());
    assert_eq!(outbox.start_push(), vec![4]);
}

#[test]
fn failed_push_keeps_reviews() {
    let mut outbox = ReviewOutbox::new(vec![7]);
    assert_eq!(outbox.start_push(), vec![7]);
    outbox.record(8);
    outbox.push_failed();
    assert_eq!(outbox.pending(), &vec![7, 8]);
    assert!(outbox.in_flight().is_empty());
}

#[test]
fn upload_scenario_assigns_first_id() {
    let content = "Q: A?\nA: B.\n";
    let parsed = parse_md_content(content).unwrap();
    let n: i64 = 1234;
    let plan = assign_card_ids("rust/ownership.md", &parsed.cards, &[n]);
    assert_eq!(plan.new_ids.len(), 1);
    assert_eq!(plan.new_ids[0].path, "rust/ownership.md");
    assert_eq!(plan.new_ids[0].line, 1);
    assert_eq!(plan.new_ids[0].id, n);
    let updated = regenerate_md_with_ids(content, &plan.new_ids);
    assert_eq!(updated, "ID: 1234\nQ: A?\nA: B.\n");
    assert_eq!(deck_path_for_file("rust/ownership.md"), "rust");
    let again = parse_md_content(&updated).unwrap();
    assert_eq!(again.cards[0].id, Some(n));
    assert_eq!(again.cards[0].line, 1);
}

#[test]
fn orphan_scenario_second_upload() {
    let first = "Q:Q1\nA:A1\n\nQ:Q2\nA:A2";
    let parsed = parse_md_content(first).unwrap();
    let plan = assign_card_ids("test.md", &parsed.cards, &[10, 11]);
    assert_eq!(plan.new_ids[0].line, 1);
    assert_eq!(plan.new_ids[1].line, 4);
    let written = regenerate_md_with_ids(first, &plan.new_ids);
    let kept: String = written.lines().take(3).collect::<Vec<_>>().join("\n");
    assert_eq!(kept, "ID: 10\nQ:Q1\nA:A1");
    let second = parse_md_content(&kept).unwrap();
    assert_eq!(count_missing_ids(&second.cards), 0);
    let plan2 = assign_card_ids("test.md", &second.cards, &[]);
    assert!(plan2.new_ids.is_empty());
    assert_eq!(orphan_ids(&plan.card_ids, &plan2.card_ids), vec![11]);
}
