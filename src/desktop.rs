//! Records of the desktop client: command results and errors, local store
//! rows, watcher events and sync errors.
use vstd::prelude::*;

verus! {

/// Result of importing a card file into the local store.
#[derive(Debug)]
pub struct ImportResult {
    pub imported: usize,
    pub deck_path: String,
}

/// Error returned by a desktop command.
#[derive(Debug)]
pub struct CommandError {
    pub message: String,
}

impl CommandError {
    /// An error with the given message.
    pub fn new(message: String) -> (r: CommandError)
        ensures
            r.message@ == message@,
    {
        CommandError { message }
    }

    /// An error of the local store, its detail prefixed by `Database error: `.
    pub fn database(detail: &str) -> (r: CommandError)
        ensures
            r.message@ == "Database error: "@ + detail@,
    {
        let mut message = String::from_str("Database error: ");
        message.append(detail);
        CommandError { message }
    }
}

/// A review submitted from the study screen.
#[derive(Debug)]
pub struct ReviewRequest {
    pub card_id: i64,
    pub rating: u8,
    pub rating_scale: String,
    pub answer_mode: String,
    pub typed_answer: Option<String>,
    pub time_taken_ms: Option<i64>,
}

/// Reviews done on one day.
#[derive(Debug, Clone)]
pub struct CalendarData {
    pub date: String,
    pub reviews: usize,
}

/// Sync bookkeeping of one card file.
#[derive(Debug, Clone)]
pub struct MdFileInfo {
    pub file_path: String,
    pub content_hash: String,
    pub last_modified: String,
}

/// The stored sync watermark and the count of local changes since.
#[derive(Debug, Clone)]
pub struct LocalSyncState {
    pub last_sync_at: Option<String>,
    pub pending_changes: i32,
}

/// The device's credentials.
#[derive(Debug, Clone)]
pub struct LocalDeviceInfo {
    pub token: String,
    pub device_id: Option<String>,
}

/// A card file changed on disk.
#[derive(Debug, Clone)]
pub struct FileChangeEvent {
    pub path: String,
    pub kind: String,
}

/// A deck whose view should be refreshed.
#[derive(Debug, Clone)]
pub struct DeckRefreshEvent {
    pub deck_path: String,
}

/// A card the server reports as orphaned, for the confirmation dialog.
#[derive(Debug, Clone)]
pub struct OrphanInfo {
    pub card_id: i64,
    pub question_preview: String,
}

/// Errors of a sync cycle.
#[derive(Debug)]
pub enum SyncError {
    Network(String),
    Backend { status: u16, message: String },
    Database(String),
    FileSystem(String),
    NotAuthenticated,
    AlreadyInProgress,
    Cancelled,
    Parse(String),
}

} // verus!
