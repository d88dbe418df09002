//! The client's sync cycle as a state machine.
//!
//! The machine decides; the caller performs. Each event reports the outcome
//! of the last action (a health probe, an upload, a review push, a pull, ...)
//! and the machine answers with its next phase and the action to perform.
use vstd::prelude::*;

verus! {

/// Where a sync cycle stands.
#[derive(Debug, Clone, Copy, PartialEq, Eq, Structural)]
pub enum SyncPhase {
    Idle,
    Connecting,
    UploadingFiles,
    AwaitingOrphanConfirmation,
    PushingReviews,
    PullingState,
    ApplyingChanges,
    WritingFiles,
    Completed,
    Failed,
}

/// The stage shown while a cycle is in progress, with its progress counts.
#[derive(Debug, Clone, Copy, PartialEq, Eq, Structural)]
pub enum SyncStage {
    Connecting,
    UploadingFiles { current: usize, total: usize },
    ParsingCards,
    ReceivingUpdates,
    PushingReviews { count: usize },
    PullingState,
    ApplyingChanges,
    WritingFiles { current: usize, total: usize },
}

/// The stage of a working phase: file stages count `done` of `total` files,
/// the review stage the reviews pushed so far; `None` outside a working
/// phase.
pub open spec fn stage_of(m: SyncMachine, done: usize, total: usize) -> Option<SyncStage> {
    match m.phase {
        SyncPhase::Connecting => Some(SyncStage::Connecting),
        SyncPhase::UploadingFiles => Some(SyncStage::UploadingFiles { current: done, total }),
        SyncPhase::PushingReviews => Some(SyncStage::PushingReviews { count: m.stats.reviews_synced }),
        SyncPhase::PullingState => Some(SyncStage::PullingState),
        SyncPhase::ApplyingChanges => Some(SyncStage::ApplyingChanges),
        SyncPhase::WritingFiles => Some(SyncStage::WritingFiles { current: done, total }),
        _ => None,
    }
}

/// Counts gathered during a cycle.
#[derive(Debug, Clone, Copy, PartialEq, Eq, Structural)]
pub struct SyncStats {
    pub files_uploaded: usize,
    pub cards_created: usize,
    pub cards_updated: usize,
    pub orphans_deleted: usize,
    pub reviews_synced: usize,
    pub states_pulled: usize,
}

/// The outcome of the last action, or a request from the user.
#[derive(Debug, Clone, Copy, PartialEq, Eq, Structural)]
pub enum SyncEvent {
    /// The user asks for a sync.
    Start,
    /// The health probe answered; `reachable` when with a success status.
    HealthChecked { reachable: bool },
    /// The upload succeeded with these counts.
    Uploaded { files: usize, new_ids: usize, orphans: usize },
    /// The user settled the orphans; `deleted` of them were deleted.
    OrphansResolved { deleted: usize },
    /// The server acknowledged `count` pushed reviews.
    ReviewsPushed { count: usize },
    /// The pull returned `states` card states.
    Pulled { states: usize },
    /// The pulled changes were written to the local store.
    Applied { cards: usize },
    /// The rewritten files are on disk; `now` is the time in seconds.
    FilesWritten { now: i64 },
    /// A request failed or timed out.
    RequestFailed,
    /// The user cancelled the cycle.
    Cancel,
}

/// What the caller must do next.
#[derive(Debug, Clone, Copy, PartialEq, Eq, Structural)]
pub enum SyncAction {
    /// Refuse: a cycle is already in progress.
    RejectAlreadyInProgress,
    ProbeHealth,
    UploadFiles,
    AskAboutOrphans,
    PushPendingReviews,
    PullState,
    ApplyChanges,
    WriteFiles,
    /// The cycle is complete; store the new watermark.
    RecordSyncTime,
    ReportFailure,
    Nothing,
}

/// The machine: the phase, this cycle's counts, the watermark of the last
/// completed cycle and the number of local changes since.
#[derive(Debug, Clone, Copy, PartialEq, Eq, Structural)]
pub struct SyncMachine {
    pub phase: SyncPhase,
    pub stats: SyncStats,
    pub last_sync_at: Option<i64>,
    pub pending_changes: u32,
}

/// Counts of a cycle that has not done anything yet.
pub open spec fn zero_stats() -> SyncStats {
    SyncStats {
        files_uploaded: 0,
        cards_created: 0,
        cards_updated: 0,
        orphans_deleted: 0,
        reviews_synced: 0,
        states_pulled: 0,
    }
}

/// Whether the cycle is in one of its working phases.
pub open spec fn in_progress(p: SyncPhase) -> bool {
    match p {
        SyncPhase::Connecting | SyncPhase::UploadingFiles | SyncPhase::PushingReviews
        | SyncPhase::PullingState | SyncPhase::ApplyingChanges | SyncPhase::WritingFiles => true,
        _ => false,
    }
}

/// The machine's answer to an event. Events that do not fit the phase leave
/// the machine as it is.
pub open spec fn next(m: SyncMachine, e: SyncEvent) -> (SyncMachine, SyncAction) {
    match e {
        SyncEvent::Start => if in_progress(m.phase) {
            (m, SyncAction::RejectAlreadyInProgress)
        } else {
            (
                SyncMachine { phase: SyncPhase::Connecting, stats: zero_stats(), ..m },
                SyncAction::ProbeHealth,
            )
        },
        SyncEvent::HealthChecked { reachable } => if m.phase == SyncPhase::Connecting {
            if reachable {
                (SyncMachine { phase: SyncPhase::UploadingFiles, ..m }, SyncAction::UploadFiles)
            } else {
                (SyncMachine { phase: SyncPhase::Failed, ..m }, SyncAction::ReportFailure)
            }
        } else {
            (m, SyncAction::Nothing)
        },
        SyncEvent::Uploaded { files, new_ids, orphans } => if m.phase == SyncPhase::UploadingFiles {
            let stats = SyncStats { files_uploaded: files, cards_created: new_ids, ..m.stats };
            if orphans > 0 {
                (
                    SyncMachine { phase: SyncPhase::AwaitingOrphanConfirmation, stats, ..m },
                    SyncAction::AskAboutOrphans,
                )
            } else {
                (
                    SyncMachine { phase: SyncPhase::PushingReviews, stats, ..m },
                    SyncAction::PushPendingReviews,
                )
            }
        } else {
            (m, SyncAction::Nothing)
        },
        SyncEvent::OrphansResolved { deleted } => if m.phase
            == SyncPhase::AwaitingOrphanConfirmation {
            (
                SyncMachine {
                    phase: SyncPhase::PushingReviews,
                    stats: SyncStats { orphans_deleted: deleted, ..m.stats },
                    ..m
                },
                SyncAction::PushPendingReviews,
            )
        } else {
            (m, SyncAction::Nothing)
        },
        SyncEvent::ReviewsPushed { count } => if m.phase == SyncPhase::PushingReviews {
            (
                SyncMachine {
                    phase: SyncPhase::PullingState,
                    stats: SyncStats { reviews_synced: count, ..m.stats },
                    ..m
                },
                SyncAction::PullState,
            )
        } else {
            (m, SyncAction::Nothing)
        },
        SyncEvent::Pulled { states } => if m.phase == SyncPhase::PullingState {
            (
                SyncMachine {
                    phase: SyncPhase::ApplyingChanges,
                    stats: SyncStats { states_pulled: states, ..m.stats },
                    ..m
                },
                SyncAction::ApplyChanges,
            )
        } else {
            (m, SyncAction::Nothing)
        },
        SyncEvent::Applied { cards } => if m.phase == SyncPhase::ApplyingChanges {
            (
                SyncMachine {
                    phase: SyncPhase::WritingFiles,
                    stats: SyncStats { cards_updated: cards, ..m.stats },
                    ..m
                },
                SyncAction::WriteFiles,
            )
        } else {
            (m, SyncAction::Nothing)
        },
        SyncEvent::FilesWritten { now } => if m.phase == SyncPhase::WritingFiles {
            (
                SyncMachine {
                    phase: SyncPhase::Completed,
                    last_sync_at: Some(now),
                    pending_changes: 0,
                    ..m
                },
                SyncAction::RecordSyncTime,
            )
        } else {
            (m, SyncAction::Nothing)
        },
        SyncEvent::RequestFailed => if in_progress(m.phase) {
            (SyncMachine { phase: SyncPhase::Failed, ..m }, SyncAction::ReportFailure)
        } else {
            (m, SyncAction::Nothing)
        },
        SyncEvent::Cancel => if in_progress(m.phase) || m.phase
            == SyncPhase::AwaitingOrphanConfirmation {
            (SyncMachine { phase: SyncPhase::Idle, ..m }, SyncAction::Nothing)
        } else {
            (m, SyncAction::Nothing)
        },
    }
}

impl SyncStats {
    /// Counts of a cycle that has not done anything yet.
    pub fn zero() -> (r: SyncStats)
        ensures
            r == zero_stats(),
    {
        SyncStats {
            files_uploaded: 0,
            cards_created: 0,
            cards_updated: 0,
            orphans_deleted: 0,
            reviews_synced: 0,
            states_pulled: 0,
        }
    }
}

impl SyncMachine {
    /// A machine that has never synced, with `pending_changes` local changes.
    pub fn new(last_sync_at: Option<i64>, pending_changes: u32) -> (r: SyncMachine)
        ensures
            r.phase == SyncPhase::Idle,
            r.stats == zero_stats(),
            r.last_sync_at == last_sync_at,
            r.pending_changes == pending_changes,
    {
        SyncMachine { phase: SyncPhase::Idle, stats: SyncStats::zero(), last_sync_at, pending_changes }
    }

    /// The stage to show, with `done` of `total` files handled in the file
    /// stages.
    pub fn stage(&self, done: usize, total: usize) -> (r: Option<SyncStage>)
        ensures
            r == stage_of(*self, done, total),
            r is Some <==> in_progress(self.phase),
    {
        match self.phase {
            SyncPhase::Connecting => Some(SyncStage::Connecting),
            SyncPhase::UploadingFiles => Some(SyncStage::UploadingFiles { current: done, total }),
            SyncPhase::PushingReviews => Some(
                SyncStage::PushingReviews { count: self.stats.reviews_synced },
            ),
            SyncPhase::PullingState => Some(SyncStage::PullingState),
            SyncPhase::ApplyingChanges => Some(SyncStage::ApplyingChanges),
            SyncPhase::WritingFiles => Some(SyncStage::WritingFiles { current: done, total }),
            _ => None,
        }
    }

    fn in_progress_exec(&self) -> (r: bool)
        ensures
            r == in_progress(self.phase),
    {
        match self.phase {
            SyncPhase::Connecting | SyncPhase::UploadingFiles | SyncPhase::PushingReviews
            | SyncPhase::PullingState | SyncPhase::ApplyingChanges | SyncPhase::WritingFiles => true,
            _ => false,
        }
    }

    /// Feed an event to the machine; returns the action to perform next.
    pub fn advance(&mut self, e: SyncEvent) -> (r: SyncAction)
        ensures
            (*final(self), r) == next(*old(self), e),
    {
        match e {
            SyncEvent::Start => {
                if self.in_progress_exec() {
                    SyncAction::RejectAlreadyInProgress
                } else {
                    self.phase = SyncPhase::Connecting;
                    self.stats = SyncStats::zero();
                    SyncAction::ProbeHealth
                }
            },
            SyncEvent::HealthChecked { reachable } => {
                if self.phase != SyncPhase::Connecting {
                    SyncAction::Nothing
                } else if reachable {
                    self.phase = SyncPhase::UploadingFiles;
                    SyncAction::UploadFiles
                } else {
                    self.phase = SyncPhase::Failed;
                    SyncAction::ReportFailure
                }
            },
            SyncEvent::Uploaded { files, new_ids, orphans } => {
                if self.phase != SyncPhase::UploadingFiles {
                    SyncAction::Nothing
                } else {
                    self.stats.files_uploaded = files;
                    self.stats.cards_created = new_ids;
                    if orphans > 0 {
                        self.phase = SyncPhase::AwaitingOrphanConfirmation;
                        SyncAction::AskAboutOrphans
                    } else {
                        self.phase = SyncPhase::PushingReviews;
                        SyncAction::PushPendingReviews
                    }
                }
            },
            SyncEvent::OrphansResolved { deleted } => {
                if self.phase != SyncPhase::AwaitingOrphanConfirmation {
                    SyncAction::Nothing
                } else {
                    self.stats.orphans_deleted = deleted;
                    self.phase = SyncPhase::PushingReviews;
                    SyncAction::PushPendingReviews
                }
            },
            SyncEvent::ReviewsPushed { count } => {
                if self.phase != SyncPhase::PushingReviews {
                    SyncAction::Nothing
                } else {
                    self.stats.reviews_synced = count;
                    self.phase = SyncPhase::PullingState;
                    SyncAction::PullState
                }
            },
            SyncEvent::Pulled { states } => {
                if self.phase != SyncPhase::PullingState {
                    SyncAction::Nothing
                } else {
                    self.stats.states_pulled = states;
                    self.phase = SyncPhase::ApplyingChanges;
                    SyncAction::ApplyChanges
                }
            },
            SyncEvent::Applied { cards } => {
                if self.phase != SyncPhase::ApplyingChanges {
                    SyncAction::Nothing
                } else {
                    self.stats.cards_updated = cards;
                    self.phase = SyncPhase::WritingFiles;
                    SyncAction::WriteFiles
                }
            },
            SyncEvent::FilesWritten { now } => {
                if self.phase != SyncPhase::WritingFiles {
                    SyncAction::Nothing
                } else {
                    self.phase = SyncPhase::Completed;
                    self.last_sync_at = Some(now);
                    self.pending_changes = 0;
                    SyncAction::RecordSyncTime
                }
            },
            SyncEvent::RequestFailed => {
                if self.in_progress_exec() {
                    self.phase = SyncPhase::Failed;
                    SyncAction::ReportFailure
                } else {
                    SyncAction::Nothing
                }
            },
            SyncEvent::Cancel => {
                if self.in_progress_exec() || self.phase == SyncPhase::AwaitingOrphanConfirmation {
                    self.phase = SyncPhase::Idle;
                }
                SyncAction::Nothing
            },
        }
    }

    /// Count one local change (a review) made since the last completed cycle;
    /// the count stops at its maximum.
    pub fn record_local_change(&mut self)
        ensures
            final(self).pending_changes == if old(self).pending_changes < u32::MAX {
                (old(self).pending_changes + 1) as u32
            } else {
                old(self).pending_changes
            },
            final(self).phase == old(self).phase,
            final(self).stats == old(self).stats,
            final(self).last_sync_at == old(self).last_sync_at,
    {
        if self.pending_changes < u32::MAX {
            self.pending_changes = self.pending_changes + 1;
        }
    }
}

/// A cycle without orphans, from a machine that is not syncing, ends
/// Completed with the watermark set to the completion time and no pending
/// changes left; the watermark strictly increases when the clock has moved
/// past the previous one.
pub proof fn lemma_clean_cycle_completes(
    m: SyncMachine,
    files: usize,
    new_ids: usize,
    count: usize,
    states: usize,
    cards: usize,
    now: i64,
)
    requires
        !in_progress(m.phase),
    ensures
        ({
            let m1 = next(m, SyncEvent::Start).0;
            let m2 = next(m1, SyncEvent::HealthChecked { reachable: true }).0;
            let m3 = next(m2, SyncEvent::Uploaded { files, new_ids, orphans: 0 }).0;
            let m4 = next(m3, SyncEvent::ReviewsPushed { count }).0;
            let m5 = next(m4, SyncEvent::Pulled { states }).0;
            let m6 = next(m5, SyncEvent::Applied { cards }).0;
            let m7 = next(m6, SyncEvent::FilesWritten { now });
            &&& m7.0.phase == SyncPhase::Completed
            &&& m7.1 == SyncAction::RecordSyncTime
            &&& m7.0.last_sync_at == Some(now)
            &&& m7.0.pending_changes == 0
            &&& m7.0.stats.reviews_synced == count
            &&& (m.last_sync_at is Some && m.last_sync_at->0 < now ==> m7.0.last_sync_at->0 > m.last_sync_at->0)
        }),
{
}

/// While a cycle is in progress another start is refused and changes nothing.
pub proof fn lemma_no_concurrent_start(m: SyncMachine)
    requires
        in_progress(m.phase),
    ensures
        next(m, SyncEvent::Start) == (m, SyncAction::RejectAlreadyInProgress),
{
}

/// The watermark moves only when a cycle completes, and pending changes are
/// reset only then.
pub proof fn lemma_watermark_moves_only_on_completion(m: SyncMachine, e: SyncEvent)
    ensures
        next(m, e).0.last_sync_at != m.last_sync_at || next(m, e).0.pending_changes
            != m.pending_changes ==> m.phase == SyncPhase::WritingFiles && e is FilesWritten
            && next(m, e).0.phase == SyncPhase::Completed,
{
}

/// Review pushes are acknowledged only in the review phase, and only after
/// the upload (and any orphan decision) has happened in the same cycle.
pub proof fn lemma_reviews_pushed_after_upload(m: SyncMachine, e: SyncEvent)
    ensures
        next(m, e).1 == SyncAction::PushPendingReviews ==> (m.phase == SyncPhase::UploadingFiles
            || m.phase == SyncPhase::AwaitingOrphanConfirmation),
        next(m, e).0.phase == SyncPhase::PullingState && m.phase != SyncPhase::PullingState
            ==> m.phase == SyncPhase::PushingReviews && e is ReviewsPushed,
{
}

/// The local review events not yet acknowledged by the server: those waiting
/// for the next push, and the batch of the push in progress.
pub struct ReviewOutbox {
    pending: Vec<i64>,
    in_flight: Vec<i64>,
}

impl View for ReviewOutbox {
    type V = (Seq<i64>, Seq<i64>);

    closed spec fn view(&self) -> (Seq<i64>, Seq<i64>) {
        (self.pending@, self.in_flight@)
    }
}

impl ReviewOutbox {
    /// An outbox holding the given unsynced reviews.
    pub fn new(pending: Vec<i64>) -> (r: ReviewOutbox)
        ensures
            r@ == (pending@, Seq::<i64>::empty()),
    {
        ReviewOutbox { pending, in_flight: Vec::new() }
    }

    /// Reviews waiting for the next push.
    pub fn pending(&self) -> (r: &Vec<i64>)
        ensures
            r@ == self@.0,
    {
        &self.pending
    }

    /// The batch of the push in progress.
    pub fn in_flight(&self) -> (r: &Vec<i64>)
        ensures
            r@ == self@.1,
    {
        &self.in_flight
    }

    /// A review was made locally.
    pub fn record(&mut self, id: i64)
        ensures
            final(self)@ == (old(self)@.0.push(id), old(self)@.1),
    {
        self.pending.push(id);
    }

    /// Start a push: every waiting review joins the batch, which is returned.
    pub fn start_push(&mut self) -> (r: Vec<i64>)
        ensures
            final(self)@ == (Seq::<i64>::empty(), old(self)@.1 + old(self)@.0),
            r@ == final(self)@.1,
    {
        let mut k: usize = 0;
        let ghost start = self.in_flight@;
        while k < self.pending.len()
            invariant
                0 <= k <= self.pending@.len(),
                self.pending@ == old(self)@.0,
                self.in_flight@ == start + self.pending@.take(k as int),
                start == old(self)@.1,
            decreases self.pending@.len() - k,
        {
            let id = self.pending[k];
            self.in_flight.push(id);
            assert(self.pending@.take(k + 1) =~= self.pending@.take(k as int).push(id));
            k += 1;
        }
        assert(self.pending@.take(self.pending@.len() as int) =~= self.pending@);
        self.pending = Vec::new();
        copy_ids(&self.in_flight)
    }

    /// The server acknowledged the push: its batch is returned, to be marked
    /// synced, and leaves the outbox.
    pub fn acknowledge(&mut self) -> (r: Vec<i64>)
        ensures
            r@ == old(self)@.1,
            final(self)@ == (old(self)@.0, Seq::<i64>::empty()),
    {
        let mut batch: Vec<i64> = Vec::new();
        std::mem::swap(&mut batch, &mut self.in_flight);
        batch
    }

    /// The push failed: its batch waits again, ahead of newer reviews.
    pub fn push_failed(&mut self)
        ensures
            final(self)@ == (old(self)@.1 + old(self)@.0, Seq::<i64>::empty()),
    {
        let mut batch: Vec<i64> = Vec::new();
        std::mem::swap(&mut batch, &mut self.in_flight);
        let mut k: usize = 0;
        let ghost first = batch@;
        while k < self.pending.len()
            invariant
                0 <= k <= self.pending@.len(),
                self.pending@ == old(self)@.0,
                first == old(self)@.1,
                batch@ == first + self.pending@.take(k as int),
                self.in_flight@ == Seq::<i64>::empty(),
            decreases self.pending@.len() - k,
        {
            let id = self.pending[k];
            batch.push(id);
            assert(self.pending@.take(k + 1) =~= self.pending@.take(k as int).push(id));
            k += 1;
        }
        assert(self.pending@.take(self.pending@.len() as int) =~= self.pending@);
        self.pending = batch;
    }
}

fn copy_ids(v: &Vec<i64>) -> (r: Vec<i64>)
    ensures
        r@ == v@,
{
    let mut r: Vec<i64> = Vec::new();
    let mut k: usize = 0;
    while k < v.len()
        invariant
            0 <= k <= v@.len(),
            r@ == v@.take(k as int),
        decreases v@.len() - k,
    {
        r.push(v[k]);
        assert(v@.take(k + 1) =~= v@.take(k as int).push(v@[k as int]));
        k += 1;
    }
    assert(v@.take(v@.len() as int) =~= v@);
    r
}

/// A review recorded before a push starts is in that push's batch; one
/// recorded after it waits for the next push; and a review leaves the outbox
/// only with the acknowledged batch, a failed push losing none.
pub proof fn lemma_review_push_order(o: (Seq<i64>, Seq<i64>), id: i64, later: i64)
    ensures
        ({
            let after_record = (o.0.push(id), o.1);
            let batch = after_record.1 + after_record.0;
            let pushing = (Seq::<i64>::empty(), batch);
            let after_later = (pushing.0.push(later), pushing.1);
            &&& batch.contains(id)
            &&& after_later.0.contains(later) && after_later.1 == batch
            &&& (after_later.1 + after_later.0).contains(id)
            &&& (after_later.1 + after_later.0).contains(later)
        }),
{
    let after_record = (o.0.push(id), o.1);
    let batch = after_record.1 + after_record.0;
    assert(batch[o.1.len() + o.0.len() as int] == id);
    let later_pending = Seq::<i64>::empty().push(later);
    assert(later_pending[0] == later);
    let back = batch + later_pending;
    assert(back[o.1.len() + o.0.len() as int] == id);
    assert(back[batch.len() as int] == later);
}

} // verus!
