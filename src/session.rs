//! Memorize sessions: the lifecycle of one asynchronous ingest, its progress
//! reports, and the rule by which finished sessions are collected.

use vstd::prelude::*;
use crate::error::{ErrorKind, MemoryError};
use crate::text::{concat_str, same_text};
use vstd::string::StringExecFns;

verus! {

/// How long a completed session is kept after its last status read.
pub const COMPLETED_RETENTION_MS: u64 = 30_000;

/// How long a failed session is kept after its last status read.
pub const FAILED_RETENTION_MS: u64 = 300_000;

/// How often the collector runs.
pub const CLEANUP_INTERVAL_MS: u64 = 60_000;

/// State of a memorize operation.
#[derive(Debug, Clone, Copy, PartialEq, Eq, Structural)]
pub enum MemorizeStatus {
    /// The task is running.
    InProgress,
    /// The task stored its memory.
    Completed,
    /// The task failed; the session holds the error.
    Failed,
}

impl MemorizeStatus {
    /// `Completed` and `Failed` are final.
    pub open spec fn is_terminal(self) -> bool {
        self != MemorizeStatus::InProgress
    }

    /// The name under which the status is reported.
    pub fn as_str(&self) -> (r: &'static str)
        ensures
            r@ == status_name(*self),
    {
        match self {
            MemorizeStatus::InProgress => "IN_PROGRESS",
            MemorizeStatus::Completed => "COMPLETED",
            MemorizeStatus::Failed => "FAILED",
        }
    }
}

/// The reported spelling of each status.
pub open spec fn status_name(s: MemorizeStatus) -> Seq<char> {
    match s {
        MemorizeStatus::InProgress => "IN_PROGRESS"@,
        MemorizeStatus::Completed => "COMPLETED"@,
        MemorizeStatus::Failed => "FAILED"@,
    }
}

/// Progress of a memorize operation.
#[derive(Debug, Clone)]
pub struct MemorizeProgress {
    /// Current stage name.
    pub stage: String,
    /// Number of files loaded.
    pub files_loaded: usize,
    /// Size of the loaded content in bytes.
    pub total_size_bytes: usize,
}

/// Stage names, in the order in which a session passes through them.
pub open spec fn stage_initializing() -> Seq<char> { "Initializing"@ }
pub open spec fn stage_loading() -> Seq<char> { "Loading content"@ }
pub open spec fn stage_embedding() -> Seq<char> { "Generating embeddings"@ }
pub open spec fn stage_storing() -> Seq<char> { "Storing in database"@ }
pub open spec fn stage_completed() -> Seq<char> { "Completed"@ }

impl MemorizeProgress {
    /// The progress of a session that has not started work.
    pub fn initial() -> (r: MemorizeProgress)
        ensures
            r.stage@ == stage_initializing(),
            r.files_loaded == 0,
            r.total_size_bytes == 0,
    {
        MemorizeProgress { stage: "Initializing".to_string(), files_loaded: 0, total_size_bytes: 0 }
    }
}

impl Default for MemorizeProgress {
    fn default() -> (r: MemorizeProgress)
        ensures
            r.stage@ == stage_initializing(),
            r.files_loaded == 0,
            r.total_size_bytes == 0,
    {
        MemorizeProgress::initial()
    }
}

/// One memorize session, with the clock readings it needs in milliseconds.
#[derive(Debug)]
pub struct MemorizeSession {
    /// Unique session id.
    pub id: String,
    /// Library the content goes to.
    pub library: String,
    /// The content as the caller gave it.
    pub content_input: String,
    /// Current status.
    pub status: MemorizeStatus,
    /// Id of the stored memory, once completed.
    pub memory_id: Option<String>,
    /// Error message, once failed.
    pub error: Option<String>,
    /// Progress report.
    pub progress: MemorizeProgress,
    /// When the session started.
    pub started_at_ms: u64,
    /// When its status was last read.
    pub last_read_ms: u64,
}

impl MemorizeSession {
    /// The well-formedness of a session: the terminal fields match the status.
    pub open spec fn wf(&self) -> bool {
        &&& (self.status == MemorizeStatus::Completed <==> self.memory_id is Some)
        &&& (self.status == MemorizeStatus::Failed <==> self.error is Some)
    }

    /// A new session, in progress, read for the last time at its start.
    pub fn new(id: String, library: String, content_input: String, now_ms: u64) -> (r: MemorizeSession)
        ensures
            r.wf(),
            r.id@ == id@,
            r.library@ == library@,
            r.content_input@ == content_input@,
            r.status == MemorizeStatus::InProgress,
            r.progress.stage@ == stage_initializing(),
            r.progress.files_loaded == 0,
            r.progress.total_size_bytes == 0,
            r.started_at_ms == now_ms,
            r.last_read_ms == now_ms,
    {
        MemorizeSession {
            id,
            library,
            content_input,
            status: MemorizeStatus::InProgress,
            memory_id: None,
            error: None,
            progress: MemorizeProgress::initial(),
            started_at_ms: now_ms,
            last_read_ms: now_ms,
        }
    }

    /// Records a new stage; a session that has ended keeps its report.
    pub fn update_progress(&mut self, stage: &str, files_loaded: usize, total_size_bytes: usize)
        ensures
            final(self).id == old(self).id,
            final(self).library == old(self).library,
            final(self).content_input == old(self).content_input,
            final(self).status == old(self).status,
            final(self).memory_id == old(self).memory_id,
            final(self).error == old(self).error,
            final(self).started_at_ms == old(self).started_at_ms,
            final(self).last_read_ms == old(self).last_read_ms,
            old(self).status == MemorizeStatus::InProgress ==> {
                &&& final(self).progress.stage@ == stage@
                &&& final(self).progress.files_loaded == files_loaded
                &&& final(self).progress.total_size_bytes == total_size_bytes
            },
            old(self).status != MemorizeStatus::InProgress ==> final(self).progress == old(self).progress,
    {
        if self.status == MemorizeStatus::InProgress {
            self.progress = MemorizeProgress {
                stage: stage.to_string(),
                files_loaded,
                total_size_bytes,
            };
        }
    }

    /// Ends a running session successfully with the id of its memory.
    /// A session that has already ended is left as it is.
    pub fn complete(&mut self, memory_id: String)
        requires
            old(self).wf(),
        ensures
            final(self).wf(),
            final(self).id == old(self).id,
            final(self).library == old(self).library,
            final(self).content_input == old(self).content_input,
            final(self).started_at_ms == old(self).started_at_ms,
            final(self).last_read_ms == old(self).last_read_ms,
            old(self).status == MemorizeStatus::InProgress ==> {
                &&& final(self).status == MemorizeStatus::Completed
                &&& final(self).memory_id == Some(memory_id)
                &&& final(self).progress.stage@ == stage_completed()
                &&& final(self).progress.files_loaded == 0
                &&& final(self).progress.total_size_bytes == 0
            },
            old(self).status.is_terminal() ==> *final(self) == *old(self),
    {
        if self.status == MemorizeStatus::InProgress {
            self.progress = MemorizeProgress { stage: "Completed".to_string(), files_loaded: 0, total_size_bytes: 0 };
            self.status = MemorizeStatus::Completed;
            self.memory_id = Some(memory_id);
        }
    }

    /// Ends a running session with an error message.
    /// A session that has already ended is left as it is.
    pub fn fail(&mut self, error_msg: String)
        requires
            old(self).wf(),
        ensures
            final(self).wf(),
            final(self).id == old(self).id,
            final(self).library == old(self).library,
            final(self).content_input == old(self).content_input,
            final(self).started_at_ms == old(self).started_at_ms,
            final(self).last_read_ms == old(self).last_read_ms,
            final(self).progress == old(self).progress,
            old(self).status == MemorizeStatus::InProgress ==> {
                &&& final(self).status == MemorizeStatus::Failed
                &&& final(self).error == Some(error_msg)
            },
            old(self).status.is_terminal() ==> *final(self) == *old(self),
    {
        if self.status == MemorizeStatus::InProgress {
            self.status = MemorizeStatus::Failed;
            self.error = Some(error_msg);
        }
    }

    /// Notes a status read at `now_ms`.
    pub fn touch(&mut self, now_ms: u64)
        ensures
            final(self).last_read_ms == now_ms,
            final(self).id == old(self).id,
            final(self).library == old(self).library,
            final(self).content_input == old(self).content_input,
            final(self).status == old(self).status,
            final(self).memory_id == old(self).memory_id,
            final(self).error == old(self).error,
            final(self).progress == old(self).progress,
            final(self).started_at_ms == old(self).started_at_ms,
    {
        self.last_read_ms = now_ms;
    }
}

/// What a status read reports about a session.
#[derive(Debug, Clone)]
pub struct MemorizeStatusResponse {
    pub session_id: String,
    pub status: MemorizeStatus,
    pub memory_id: Option<String>,
    pub library: String,
    pub progress: MemorizeProgress,
    pub runtime_ms: u64,
    pub error: Option<String>,
}

/// The response describes `s` as read at `now_ms`.
pub open spec fn reports(r: MemorizeStatusResponse, s: MemorizeSession, now_ms: u64) -> bool {
    &&& r.session_id@ == s.id@
    &&& r.status == s.status
    &&& r.memory_id == s.memory_id
    &&& r.library@ == s.library@
    &&& r.progress == s.progress
    &&& r.runtime_ms == (if now_ms >= s.started_at_ms { now_ms - s.started_at_ms } else { 0 })
    &&& r.error == s.error
}

impl MemorizeSession {
    /// The status report of this session at `now_ms`.
    pub fn status_response(&self, now_ms: u64) -> (r: MemorizeStatusResponse)
        ensures
            reports(r, *self, now_ms),
    {
        MemorizeStatusResponse {
            session_id: self.id.clone(),
            status: self.status,
            memory_id: clone_opt(&self.memory_id),
            library: self.library.clone(),
            progress: MemorizeProgress {
                stage: self.progress.stage.clone(),
                files_loaded: self.progress.files_loaded,
                total_size_bytes: self.progress.total_size_bytes,
            },
            runtime_ms: now_ms.saturating_sub(self.started_at_ms),
            error: clone_opt(&self.error),
        }
    }
}

/// A copy of an optional string.
fn clone_opt(o: &Option<String>) -> (r: Option<String>)
    ensures
        r == *o,
{
    match o {
        Some(s) => Some(s.clone()),
        None => None,
    }
}

/// What the ingest task reports back after each step of its work.
#[derive(Debug)]
pub enum IngestEvent {
    /// The task began.
    Started,
    /// The content was resolved to a document of `size` bytes.
    ContentLoaded { size: usize },
    /// The library's coordinator is ready.
    LibraryReady,
    /// The memory was stored under `memory_id`.
    Stored { memory_id: String },
    /// Resolving the content failed.
    LoadFailed { message: String },
    /// Opening the library failed.
    LibraryFailed { message: String },
    /// Embedding or storing failed.
    StoreFailed { message: String },
    /// The operator cancelled the work.
    Cancelled,
}

/// What the ingest task is to do next.
#[derive(Debug, Clone, Copy, PartialEq, Eq, Structural)]
pub enum IngestAction {
    /// Resolve the content input to one document.
    ResolveContent,
    /// Get the coordinator of the session's library.
    OpenLibrary,
    /// Embed the document and store it.
    StoreMemory,
    /// Nothing more: the session has ended.
    Finish,
}

/// `n` is `o` with only its progress replaced by `(stage, files, bytes)`.
pub open spec fn progressed(o: MemorizeSession, n: MemorizeSession, stage: Seq<char>, files: usize, bytes: usize) -> bool {
    &&& n.progress.stage@ == stage
    &&& n.progress.files_loaded == files
    &&& n.progress.total_size_bytes == bytes
    &&& n.status == o.status
    &&& n.memory_id == o.memory_id
    &&& n.error == o.error
}

/// `n` is `o` failed with message `msg`.
pub open spec fn failed_with(o: MemorizeSession, n: MemorizeSession, msg: Seq<char>) -> bool {
    &&& n.status == MemorizeStatus::Failed
    &&& n.error matches Some(e) && e@ == msg
    &&& n.memory_id == o.memory_id
    &&& n.progress == o.progress
}

/// The stage a running session must have reached for event `e` to come in
/// order; `None` for failures and cancellation, which may come at any stage.
pub open spec fn expected_stage(e: IngestEvent) -> Option<Seq<char>> {
    match e {
        IngestEvent::Started => Some(stage_initializing()),
        IngestEvent::ContentLoaded { .. } => Some(stage_loading()),
        IngestEvent::LibraryReady => Some(stage_embedding()),
        IngestEvent::Stored { .. } => Some(stage_storing()),
        _ => None,
    }
}

/// Event `e` comes in order for session `o`.
pub open spec fn in_order(o: MemorizeSession, e: IngestEvent) -> bool {
    match expected_stage(e) {
        Some(st) => o.progress.stage@ == st,
        None => true,
    }
}

/// The position of a session in its lifecycle: the stages in order, and 4 once
/// it has ended.
pub open spec fn stage_rank(s: MemorizeSession) -> int {
    if s.status.is_terminal() {
        4
    } else if s.progress.stage@ == stage_loading() {
        1
    } else if s.progress.stage@ == stage_embedding() {
        2
    } else if s.progress.stage@ == stage_storing() {
        3
    } else {
        0
    }
}

/// The session `n` after `o` has taken event `e`. A session that has ended
/// takes no event, and an event out of order leaves the session as it is.
pub open spec fn advanced(o: MemorizeSession, e: IngestEvent, n: MemorizeSession) -> bool {
    if o.status.is_terminal() || !in_order(o, e) {
        n == o
    } else {
        &&& n.id == o.id
        &&& n.library == o.library
        &&& n.content_input == o.content_input
        &&& n.started_at_ms == o.started_at_ms
        &&& n.last_read_ms == o.last_read_ms
        &&& match e {
            IngestEvent::Started => progressed(o, n, stage_loading(), 0, 0),
            IngestEvent::ContentLoaded { size } => progressed(o, n, stage_embedding(), 1, size),
            IngestEvent::LibraryReady => progressed(o, n, stage_storing(), 1, o.progress.total_size_bytes),
            IngestEvent::Stored { memory_id } => {
                &&& n.status == MemorizeStatus::Completed
                &&& n.memory_id == Some(memory_id)
                &&& n.error == o.error
                &&& n.progress.stage@ == stage_completed()
                &&& n.progress.files_loaded == 0
                &&& n.progress.total_size_bytes == 0
            },
            IngestEvent::LoadFailed { message } => failed_with(o, n, "Failed to load content: "@ + message@),
            IngestEvent::LibraryFailed { message } => failed_with(o, n, "Failed to get coordinator: "@ + message@),
            IngestEvent::StoreFailed { message } => failed_with(o, n, "Failed to store memory: "@ + message@),
            IngestEvent::Cancelled => failed_with(o, n, "cancelled"@),
        }
    }
}

/// The step that follows event `e` on session `o`.
pub open spec fn next_action(o: MemorizeSession, e: IngestEvent) -> IngestAction {
    if o.status.is_terminal() || !in_order(o, e) {
        IngestAction::Finish
    } else {
        match e {
            IngestEvent::Started => IngestAction::ResolveContent,
            IngestEvent::ContentLoaded { .. } => IngestAction::OpenLibrary,
            IngestEvent::LibraryReady => IngestAction::StoreMemory,
            _ => IngestAction::Finish,
        }
    }
}

impl MemorizeSession {
    /// Takes one report of the ingest task and says what it does next.
    pub fn advance(&mut self, event: IngestEvent) -> (r: IngestAction)
        requires
            old(self).wf(),
        ensures
            final(self).wf(),
            advanced(*old(self), event, *final(self)),
            r == next_action(*old(self), event),
    {
        if self.status != MemorizeStatus::InProgress {
            return IngestAction::Finish;
        }
        let expected: Option<&str> = match &event {
            IngestEvent::Started => Some("Initializing"),
            IngestEvent::ContentLoaded { .. } => Some("Loading content"),
            IngestEvent::LibraryReady => Some("Generating embeddings"),
            IngestEvent::Stored { .. } => Some("Storing in database"),
            _ => None,
        };
        match expected {
            Some(st) => {
                if !same_text(self.progress.stage.as_str(), st) {
                    return IngestAction::Finish;
                }
            },
            None => {},
        }
        match event {
            IngestEvent::Started => {
                self.update_progress("Loading content", 0, 0);
                IngestAction::ResolveContent
            },
            IngestEvent::ContentLoaded { size } => {
                self.update_progress("Generating embeddings", 1, size);
                IngestAction::OpenLibrary
            },
            IngestEvent::LibraryReady => {
                let size = self.progress.total_size_bytes;
                self.update_progress("Storing in database", 1, size);
                IngestAction::StoreMemory
            },
            IngestEvent::Stored { memory_id } => {
                self.complete(memory_id);
                IngestAction::Finish
            },
            IngestEvent::LoadFailed { message } => {
                self.fail(concat_str("Failed to load content: ", message.as_str()));
                IngestAction::Finish
            },
            IngestEvent::LibraryFailed { message } => {
                self.fail(concat_str("Failed to get coordinator: ", message.as_str()));
                IngestAction::Finish
            },
            IngestEvent::StoreFailed { message } => {
                self.fail(concat_str("Failed to store memory: ", message.as_str()));
                IngestAction::Finish
            },
            IngestEvent::Cancelled => {
                self.fail(String::from_str("cancelled"));
                IngestAction::Finish
            },
        }
    }
}

/// A session never moves back in its lifecycle: whatever its task reports,
/// its stage rank does not decrease.
pub proof fn lemma_stage_never_goes_back(o: MemorizeSession, e: IngestEvent, n: MemorizeSession)
    requires
        advanced(o, e, n),
    ensures
        stage_rank(n) >= stage_rank(o),
{
    reveal_strlit("Initializing");
    reveal_strlit("Loading content");
    reveal_strlit("Generating embeddings");
    reveal_strlit("Storing in database");
    reveal_strlit("Completed");
    assert(stage_loading().len() != stage_initializing().len());
    assert(stage_embedding().len() != stage_loading().len());
    assert(stage_storing().len() != stage_loading().len());
    assert(stage_storing().len() != stage_embedding().len());
}

/// Whether a session with `status`, last read at `last_read_ms`, is due for
/// collection at `now_ms`.
pub open spec fn expired(status: MemorizeStatus, last_read_ms: u64, now_ms: u64) -> bool {
    let age = if now_ms >= last_read_ms { now_ms - last_read_ms } else { 0 };
    match status {
        MemorizeStatus::Completed => age >= COMPLETED_RETENTION_MS,
        MemorizeStatus::Failed => age >= FAILED_RETENTION_MS,
        MemorizeStatus::InProgress => false,
    }
}

/// Decides whether the collector removes a session.
pub fn should_remove(status: MemorizeStatus, last_read_ms: u64, now_ms: u64) -> (r: bool)
    ensures
        r == expired(status, last_read_ms, now_ms),
{
    let age = now_ms.saturating_sub(last_read_ms);
    match status {
        MemorizeStatus::Completed => age >= COMPLETED_RETENTION_MS,
        MemorizeStatus::Failed => age >= FAILED_RETENTION_MS,
        MemorizeStatus::InProgress => false,
    }
}

} // verus!
