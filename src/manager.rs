//! The table of memorize sessions: starting a session, reading its status,
//! recording what its task reports, and collecting finished sessions.

use vstd::prelude::*;
use crate::ids::new_uuid;
use crate::error::{ErrorKind, MemoryError};
use crate::library::{valid_library_name, validate_library_name};
use crate::session::{
    COMPLETED_RETENTION_MS,
    advanced, expired, next_action, reports, should_remove, stage_initializing, IngestAction,
    IngestEvent, MemorizeSession, MemorizeStatus, MemorizeStatusResponse,
};

verus! {

broadcast use vstd::seq_lib::group_filter_ensures;

/// The sessions of one process, in the order in which they were started.
pub struct MemorizeSessionManager {
    pub sessions: Vec<MemorizeSession>,
}

/// Some session in `s` has id `id`.
pub open spec fn has_id(s: Seq<MemorizeSession>, id: Seq<char>) -> bool {
    exists|i: int| 0 <= i < s.len() && (#[trigger] s[i]).id@ == id
}

/// The sessions that the collector keeps at `now_ms`.
pub open spec fn kept_at(now_ms: u64) -> spec_fn(MemorizeSession) -> bool {
    |s: MemorizeSession| !expired(s.status, s.last_read_ms, now_ms)
}

/// No two sessions of `s` share an id.
pub open spec fn session_ids_unique(s: Seq<MemorizeSession>) -> bool {
    forall|i: int, j: int| 0 <= i < s.len() && 0 <= j < s.len() && i != j ==>
        (#[trigger] s[i]).id@ != (#[trigger] s[j]).id@
}

impl MemorizeSessionManager {
    /// Every session is well formed and no two share an id.
    pub open spec fn wf(&self) -> bool {
        &&& forall|i: int| 0 <= i < self.sessions@.len() ==> (#[trigger] self.sessions@[i]).wf()
        &&& session_ids_unique(self.sessions@)
    }

    /// A manager with no sessions.
    pub fn new() -> (r: MemorizeSessionManager)
        ensures
            r.wf(),
            r.sessions@.len() == 0,
    {
        MemorizeSessionManager { sessions: Vec::new() }
    }

    /// The position of the first session with id `id`.
    pub fn find_index(&self, id: &str) -> (r: Option<usize>)
        ensures
            r is None <==> !has_id(self.sessions@, id@),
            r matches Some(i) ==> i < self.sessions@.len() && self.sessions@[i as int].id@ == id@,
    {
        let key = id.to_owned();
        let mut i: usize = 0;
        while i < self.sessions.len()
            invariant
                key@ == id@,
                i <= self.sessions@.len(),
                forall|j: int| 0 <= j < i ==> (#[trigger] self.sessions@[j]).id@ != id@,
            decreases self.sessions.len() - i,
        {
            if self.sessions[i].id == key {
                return Some(i);
            }
            i = i + 1;
        }
        None
    }

    /// Adds a session under a fresh id; refuses an id that is taken.
    pub fn add_session(&mut self, session: MemorizeSession) -> (r: bool)
        requires
            old(self).wf(),
            session.wf(),
        ensures
            final(self).wf(),
            r == !has_id(old(self).sessions@, session.id@),
            r ==> final(self).sessions@ == old(self).sessions@.push(session),
            !r ==> final(self).sessions@ == old(self).sessions@,
    {
        match self.find_index(session.id.as_str()) {
            Some(_) => false,
            None => {
                self.sessions.push(session);
                true
            },
        }
    }

    /// Starts a session for `content` in `library` at `now_ms` and returns its
    /// id. The task that does the work is run by the caller.
    pub fn start_memorize_session(&mut self, library: String, content: String, now_ms: u64) -> (r: Result<String, MemoryError>)
        requires
            old(self).wf(),
        ensures
            final(self).wf(),
            !valid_library_name(library@) ==> (r matches Err(e) && e.kind == ErrorKind::InvalidInput),
            valid_library_name(library@) && old(self).sessions@.len() == 0 ==> r is Ok,
            valid_library_name(library@) && r is Err ==> (r matches Err(e) && e.kind == ErrorKind::Internal
                && old(self).sessions@.len() > 0),
            r is Err ==> final(self).sessions@ == old(self).sessions@,
            r matches Ok(id) ==> {
                &&& valid_library_name(library@)
                &&& id@.len() == 36
                &&& final(self).sessions@.len() == old(self).sessions@.len() + 1
                &&& final(self).sessions@.drop_last() == old(self).sessions@
                &&& {
                    let s = final(self).sessions@.last();
                    &&& s.id@ == id@
                    &&& s.library@ == library@
                    &&& s.content_input@ == content@
                    &&& s.status == MemorizeStatus::InProgress
                    &&& s.progress.stage@ == stage_initializing()
                    &&& s.started_at_ms == now_ms
                    &&& s.last_read_ms == now_ms
                }
            },
    {
        match validate_library_name(library.as_str()) {
            Err(e) => return Err(e),
            Ok(()) => {},
        }
        let id = new_uuid();
        let session = MemorizeSession::new(id.clone(), library, content, now_ms);
        if self.add_session(session) {
            Ok(id)
        } else {
            Err(MemoryError::new(ErrorKind::Internal, "session id already in use".to_string()))
        }
    }

    /// Reads the status of session `id` at `now_ms`, which counts as a read
    /// for collection. An unknown id is `NotFound`.
    pub fn get_status(&mut self, id: &str, now_ms: u64) -> (r: Result<MemorizeStatusResponse, MemoryError>)
        requires
            old(self).wf(),
        ensures
            final(self).wf(),
            r is Ok <==> has_id(old(self).sessions@, id@),
            r matches Err(e) ==> e.kind == ErrorKind::NotFound && final(self).sessions@ == old(self).sessions@,
            r matches Ok(resp) ==> exists|i: int| {
                &&& 0 <= i < old(self).sessions@.len()
                &&& old(self).sessions@[i].id@ == id@
                &&& final(self).sessions@ == old(self).sessions@.update(i, MemorizeSession { last_read_ms: now_ms, ..old(self).sessions@[i] })
                &&& reports(resp, old(self).sessions@[i], now_ms)
            },
    {
        match self.find_index(id) {
            None => Err(MemoryError::new(ErrorKind::NotFound, "session not found".to_string())),
            Some(i) => {
                let ghost before = self.sessions@;
                let mut session = self.sessions.remove(i);
                session.touch(now_ms);
                let resp = session.status_response(now_ms);
                self.sessions.insert(i, session);
                proof {
                    assert(self.sessions@ =~= before.update(i as int, MemorizeSession { last_read_ms: now_ms, ..before[i as int] }));
                    assert(self.sessions@[i as int].wf());
                }
                Ok(resp)
            },
        }
    }

    /// Hands event `event` of its ingest task to session `id`, and returns the
    /// task's next step. A session that was collected is `NotFound`.
    pub fn advance_session(&mut self, id: &str, event: IngestEvent) -> (r: Result<IngestAction, MemoryError>)
        requires
            old(self).wf(),
        ensures
            final(self).wf(),
            r is Ok <==> has_id(old(self).sessions@, id@),
            r matches Err(e) ==> e.kind == ErrorKind::NotFound && final(self).sessions@ == old(self).sessions@,
            r matches Ok(a) ==> exists|i: int| {
                &&& 0 <= i < old(self).sessions@.len()
                &&& old(self).sessions@[i].id@ == id@
                &&& final(self).sessions@.len() == old(self).sessions@.len()
                &&& forall|j: int| 0 <= j < old(self).sessions@.len() && j != i ==> final(self).sessions@[j] == old(self).sessions@[j]
                &&& advanced(old(self).sessions@[i], event, final(self).sessions@[i])
                &&& a == next_action(old(self).sessions@[i], event)
            },
    {
        match self.find_index(id) {
            None => Err(MemoryError::new(ErrorKind::NotFound, "session not found".to_string())),
            Some(i) => {
                let ghost before = self.sessions@;
                let mut session = self.sessions.remove(i);
                let action = session.advance(event);
                self.sessions.insert(i, session);
                proof {
                    assert forall|j: int| 0 <= j < before.len() && j != i implies self.sessions@[j] == before[j] by {
                    }
                }
                Ok(action)
            },
        }
    }

    /// Removes every session that is due for collection at `now_ms`: completed
    /// ones unread for 30 s, failed ones unread for 300 s. Running sessions stay.
    pub fn cleanup_sessions(&mut self, now_ms: u64)
        requires
            old(self).wf(),
        ensures
            final(self).wf(),
            final(self).sessions@ == old(self).sessions@.filter(kept_at(now_ms)),
    {
        let ghost olds = self.sessions@;
        let mut rest: Vec<MemorizeSession> = Vec::new();
        std::mem::swap(&mut rest, &mut self.sessions);
        let mut kept: Vec<MemorizeSession> = Vec::new();
        let ghost mut i: int = 0;
        proof {
            assert(olds.subrange(0, 0) =~= Seq::<MemorizeSession>::empty());
            assert(rest@ =~= olds.subrange(0, olds.len() as int));
        }
        while rest.len() > 0
            invariant
                0 <= i <= olds.len(),
                rest@ == olds.subrange(i, olds.len() as int),
                kept@ == olds.subrange(0, i).filter(kept_at(now_ms)),
                forall|j: int| 0 <= j < olds.len() ==> (#[trigger] olds[j]).wf(),
                session_ids_unique(olds),
                session_ids_unique(kept@),
                forall|t: int| 0 <= t < kept@.len() ==> exists|j: int| 0 <= j < i && olds[j] == #[trigger] kept@[t],
            decreases rest.len(),
        {
            let s = rest.remove(0);
            proof {
                reveal(Seq::filter);
                assert(olds.subrange(0, i + 1).drop_last() =~= olds.subrange(0, i));
                assert(olds.subrange(0, i + 1).last() == s);
            }
            if !should_remove(s.status, s.last_read_ms, now_ms) {
                let ghost before = kept@;
                kept.push(s);
                proof {
                    assert forall|t: int| 0 <= t < before.len() implies (#[trigger] before[t]).id@ != olds[i].id@ by {
                        let j = choose|j: int| 0 <= j < i && olds[j] == before[t];
                        assert(olds[j].id@ != olds[i].id@);
                    }
                    assert forall|a: int, b: int| 0 <= a < kept@.len() && 0 <= b < kept@.len() && a != b implies
                        (#[trigger] kept@[a]).id@ != (#[trigger] kept@[b]).id@ by {
                        if a < before.len() && b < before.len() {
                            assert(kept@[a] == before[a] && kept@[b] == before[b]);
                        } else if a < before.len() {
                            assert(kept@[a] == before[a]);
                        } else {
                            assert(kept@[b] == before[b]);
                        }
                    }
                    assert forall|t: int| 0 <= t < kept@.len() implies exists|j: int| 0 <= j < i + 1 && olds[j] == #[trigger] kept@[t] by {
                        if t < before.len() {
                            assert(kept@[t] == before[t]);
                            let j = choose|j: int| 0 <= j < i && olds[j] == before[t];
                            assert(olds[j] == kept@[t]);
                        } else {
                            assert(olds[i] == kept@[t]);
                        }
                    }
                }
            }
            proof {
                i = i + 1;
                assert(rest@ =~= olds.subrange(i, olds.len() as int));
            }
        }
        proof {
            assert(olds.subrange(0, i) =~= olds);
            assert forall|j: int| 0 <= j < kept@.len() implies (#[trigger] kept@[j]).wf() by {
                assert(olds.filter(kept_at(now_ms)).contains(kept@[j]));
                olds.lemma_filter_contains_rev(kept_at(now_ms), kept@[j]);
                let k = choose|k: int| 0 <= k < olds.len() && olds[k] == kept@[j];
                assert(olds[k].wf());
            }
        }
        self.sessions = kept;
    }
} // impl

/// Once a session has completed or failed, no later report of its task
/// changes it, and a status read reports the same terminal state.
pub proof fn lemma_terminal_status_is_stable(
    o: MemorizeSession,
    e: IngestEvent,
    n: MemorizeSession,
    resp: MemorizeStatusResponse,
    now_ms: u64,
)
    requires
        o.status.is_terminal(),
    ensures
        advanced(o, e, n) ==> n == o,
        next_action(o, e) == IngestAction::Finish,
        reports(resp, MemorizeSession { last_read_ms: now_ms, ..o }, now_ms) ==> {
            &&& resp.status == o.status
            &&& resp.memory_id == o.memory_id
            &&& resp.error == o.error
        },
{
}

/// A completed session whose status has not been read for the completed
/// retention period is removed by the collector; its id is then unknown.
pub proof fn lemma_completed_session_collected(sessions: Seq<MemorizeSession>, id: Seq<char>, now_ms: u64)
    requires
        forall|i: int| 0 <= i < sessions.len() && (#[trigger] sessions[i]).id@ == id ==> {
            &&& sessions[i].status == MemorizeStatus::Completed
            &&& now_ms >= sessions[i].last_read_ms + COMPLETED_RETENTION_MS
        },
    ensures
        !has_id(sessions.filter(kept_at(now_ms)), id),
{
    let kept = sessions.filter(kept_at(now_ms));
    if has_id(kept, id) {
        let j = choose|j: int| 0 <= j < kept.len() && (#[trigger] kept[j]).id@ == id;
        assert(kept.contains(kept[j]));
        sessions.lemma_filter_contains_rev(kept_at(now_ms), kept[j]);
        let k = choose|k: int| 0 <= k < sessions.len() && sessions[k] == kept[j];
        assert(sessions[k].id@ == id);
        assert(kept_at(now_ms)(kept[j]));
    }
}

} // verus!
