//! Request and response records of the sync server's API.
use vstd::prelude::*;

verus! {

/// A card the server knows for a device but that the last upload did not name.
#[derive(Debug, Clone)]
pub struct OrphanedCard {
    pub id: i64,
    pub question_preview: String,
}

/// A deck with its counts.
#[derive(Debug, Clone)]
pub struct DeckInfo {
    pub path: String,
    pub name: String,
    pub card_count: i32,
    pub new_count: i32,
    pub due_count: i32,
}

/// Body of a device registration.
#[derive(Debug)]
pub struct DeviceRegisterRequest {
    pub name: Option<String>,
}

/// Body of an upload: every card file the client holds.
#[derive(Debug)]
pub struct SyncUploadRequest {
    pub files: Vec<SyncFile>,
}

/// One uploaded card file with the SHA-256 hex digest of its content.
#[derive(Debug)]
pub struct SyncFile {
    pub path: String,
    pub content: String,
    pub hash: String,
}

/// Answer to an upload.
#[derive(Debug)]
pub struct SyncUploadResponse {
    pub updated_files: Vec<UpdatedFile>,
    pub new_ids: Vec<NewIdAssignment>,
    pub orphaned_cards: Vec<OrphanedCard>,
}

/// A card file rewritten with newly assigned IDs.
#[derive(Debug)]
pub struct UpdatedFile {
    pub path: String,
    pub content: String,
}

/// An ID given to the card that starts on `line` of the file at `path`.
#[derive(Debug)]
pub struct NewIdAssignment {
    pub path: String,
    pub line: usize,
    pub id: i64,
}

/// Body of an orphan deletion.
#[derive(Debug)]
pub struct ConfirmDeleteRequest {
    pub card_ids: Vec<i64>,
}

/// Answer to an orphan deletion.
#[derive(Debug)]
pub struct ConfirmDeleteResponse {
    pub deleted_count: usize,
}

/// Answer to a review push.
#[derive(Debug)]
pub struct PushReviewsResponse {
    pub synced_count: usize,
}

/// Query of the study queue, optionally for one deck.
#[derive(Debug)]
pub struct StudyQueueQuery {
    pub deck_path: Option<String>,
}

/// What is left of today's limits.
#[derive(Debug)]
pub struct StudyLimits {
    pub new_remaining: usize,
    pub review_remaining: usize,
}

/// Body of a review submission.
#[derive(Debug)]
pub struct SubmitReviewRequest {
    pub card_id: i64,
    pub rating: i32,
    pub rating_scale: String,
    pub answer_mode: String,
    pub typed_answer: Option<String>,
    pub time_taken_ms: Option<i32>,
}

/// Answer listing the decks.
#[derive(Debug)]
pub struct DeckListResponse {
    pub decks: Vec<DeckInfo>,
}

/// Errors of the blob store.
#[derive(Debug)]
pub enum StorageError {
    S3(String),
    Config(String),
    NotFound(String),
}

} // verus!
