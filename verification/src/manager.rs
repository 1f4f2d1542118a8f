//! The session manager: a registry from numeric handles to sessions.
//!
//! Handles are positive and monotonic from 1 and are never reused; slot
//! `id - 1` of the registry holds the session of handle `id`, emptied when
//! the session is stopped or its route is unregistered. Control operations
//! look the session up and delegate, returning 0 on success and a non-zero
//! code on error.

use vstd::prelude::*;
use crate::config::{DownloadConfig, config_valid};
use crate::json::str_eq;
use crate::session::{Session, SessionState, start_transition, pause_transition};

verus! {

/// Returned when a handle names no registered session.
pub const CODE_NO_SESSION: i32 = -1;

/// Returned when `start` finds the session already running.
pub const CODE_ALREADY_RUNNING: i32 = 1;

/// The process-wide registry of sessions by handle.
pub struct Registry {
    pub entries: Vec<Option<Session>>,
}

impl Registry {
    /// Whether a handle names a live session.
    pub open spec fn has_session(self, id: int) -> bool {
        1 <= id <= self.entries@.len() && self.entries@[id - 1] is Some
    }

    /// The control state of the session behind a handle.
    pub open spec fn state_of(self, id: int) -> SessionState {
        self.entries@[id - 1]->Some_0.state
    }

    /// The configuration of the session behind a handle.
    pub open spec fn config_of(self, id: int) -> DownloadConfig {
        self.entries@[id - 1]->Some_0.config
    }

    /// The advisory task index of the session behind a handle.
    pub open spec fn task_index_of(self, id: int) -> usize {
        self.entries@[id - 1]->Some_0.current_task_index
    }

    /// An empty registry; the first handle it gives out is 1.
    pub fn new() -> (r: Registry)
        ensures
            r.entries@.len() == 0,
            forall|id: int| !r.has_session(id),
    {
        Registry { entries: Vec::new() }
    }

    /// Register a session over a configuration: a fresh positive handle, or
    /// `-1` when the configuration is invalid (no tasks) or the handle
    /// space is exhausted.
    pub fn create(&mut self, config: DownloadConfig) -> (handle: i32)
        ensures
            !config_valid(config) || old(self).entries@.len() >= 0x7FFF_FFFF ==> handle == -1
                && *final(self) == *old(self),
            config_valid(config) && old(self).entries@.len() < 0x7FFF_FFFF ==> {
                &&& handle == old(self).entries@.len() + 1
                &&& handle >= 1
                &&& final(self).has_session(handle as int)
                &&& final(self).state_of(handle as int) == (SessionState {
                    running: false,
                    stopped: false,
                })
                &&& final(self).config_of(handle as int) == config
                &&& final(self).task_index_of(handle as int) == 0
                &&& final(self).entries@.len() == old(self).entries@.len() + 1
                &&& forall|k: int|
                    0 <= k < old(self).entries@.len() ==> final(self).entries@[k] == old(
                        self,
                    ).entries@[k]
                &&& forall|j: int|
                    j != handle ==> final(self).has_session(j) == old(self).has_session(j)
                &&& forall|j: int|
                    j != handle && old(self).has_session(j) ==> final(self).state_of(j) == old(
                        self,
                    ).state_of(j)
            },
    {
        if config.tasks.len() == 0 {
            return -1;
        }
        if self.entries.len() >= 0x7FFF_FFFF {
            return -1;
        }
        let handle = (self.entries.len() + 1) as i32;
        self.entries.push(Some(Session::new(config)));
        handle
    }

    /// What `start` by handle did: `-1` without a session, `1` while
    /// already running (nothing changed either way), else `0` with the
    /// session now running and everything else untouched.
    pub open spec fn start_post(o: Registry, n: Registry, id: int, r: i32) -> bool {
        &&& (!o.has_session(id) ==> r == CODE_NO_SESSION && n == o)
        &&& (o.has_session(id) && o.state_of(id).running ==> r == CODE_ALREADY_RUNNING
            && n.entries@ == o.entries@)
        &&& (o.has_session(id) && !o.state_of(id).running ==> {
            &&& r == 0
            &&& n.has_session(id)
            &&& n.state_of(id) == start_transition(o.state_of(id)).0
            &&& n.state_of(id).running
            &&& n.config_of(id) == o.config_of(id)
            &&& n.task_index_of(id) == o.task_index_of(id)
            &&& n.entries@.len() == o.entries@.len()
            &&& forall|k: int|
                0 <= k < o.entries@.len() && k != id - 1 ==> n.entries@[k] == o.entries@[k]
            &&& forall|j: int| j != id ==> n.has_session(j) == o.has_session(j)
            &&& forall|j: int| j != id && o.has_session(j) ==> n.state_of(j) == o.state_of(j)
        })
    }

    /// Start the session behind a handle.
    pub fn start_by_id(&mut self, id: i32) -> (r: i32)
        ensures
            Registry::start_post(*old(self), *final(self), id as int, r),
    {
        if id < 1 || (id as usize) > self.entries.len() {
            return CODE_NO_SESSION;
        }
        let idx = (id - 1) as usize;
        if self.entries[idx].is_none() {
            return CODE_NO_SESSION;
        }
        match self.entries[idx].take() {
            Option::Some(mut session) => {
                let started = session.start();
                self.entries[idx] = Some(session);
                match started {
                    Ok(_) => 0,
                    Err(_) => {
                        proof {
                            assert(self.entries@ =~= old(self).entries@);
                        }
                        CODE_ALREADY_RUNNING
                    },
                }
            },
            Option::None => CODE_NO_SESSION,
        }
    }

    /// `start_multiple` shares `start`'s implementation and semantics.
    pub fn start_multiple_by_id(&mut self, id: i32) -> (r: i32)
        ensures
            Registry::start_post(*old(self), *final(self), id as int, r),
    {
        self.start_by_id(id)
    }

    /// `resume` is `start` from the current task list.
    pub fn resume_by_id(&mut self, id: i32) -> (r: i32)
        ensures
            Registry::start_post(*old(self), *final(self), id as int, r),
    {
        self.start_by_id(id)
    }

    /// What `pause` by handle did.
    pub open spec fn pause_post(o: Registry, n: Registry, id: int, r: i32) -> bool {
        &&& (!o.has_session(id) ==> r == CODE_NO_SESSION && n == o)
        &&& (o.has_session(id) ==> {
            &&& r == 0
            &&& n.has_session(id)
            &&& n.state_of(id) == pause_transition(o.state_of(id))
            &&& !n.state_of(id).running
            &&& n.config_of(id) == o.config_of(id)
            &&& n.task_index_of(id) == o.task_index_of(id)
            &&& n.entries@.len() == o.entries@.len()
            &&& forall|k: int|
                0 <= k < o.entries@.len() && k != id - 1 ==> n.entries@[k] == o.entries@[k]
            &&& forall|j: int| j != id ==> n.has_session(j) == o.has_session(j)
            &&& forall|j: int| j != id && o.has_session(j) ==> n.state_of(j) == o.state_of(j)
        })
    }

    /// Pause the session behind a handle: its cancel signal fires and is
    /// cleared, so `resume` becomes valid.
    pub fn pause_by_id(&mut self, id: i32) -> (r: i32)
        ensures
            Registry::pause_post(*old(self), *final(self), id as int, r),
    {
        if id < 1 || (id as usize) > self.entries.len() {
            return CODE_NO_SESSION;
        }
        let idx = (id - 1) as usize;
        if self.entries[idx].is_none() {
            return CODE_NO_SESSION;
        }
        match self.entries[idx].take() {
            Option::Some(mut session) => {
                session.pause();
                self.entries[idx] = Some(session);
                0
            },
            Option::None => CODE_NO_SESSION,
        }
    }

    /// What `stop` by handle did: the entry is removed, so the handle is
    /// gone and a second `stop` returns the error code.
    pub open spec fn stop_post(o: Registry, n: Registry, id: int, r: i32) -> bool {
        &&& (!o.has_session(id) ==> r == CODE_NO_SESSION && n == o)
        &&& (o.has_session(id) ==> {
            &&& r == 0
            &&& !n.has_session(id)
            &&& n.entries@.len() == o.entries@.len()
            &&& forall|k: int|
                0 <= k < o.entries@.len() && k != id - 1 ==> n.entries@[k] == o.entries@[k]
            &&& forall|j: int| j != id ==> n.has_session(j) == o.has_session(j)
            &&& forall|j: int| j != id && o.has_session(j) ==> n.state_of(j) == o.state_of(j)
        })
    }

    /// Stop the session behind a handle and remove the entry.
    pub fn stop_by_id(&mut self, id: i32) -> (r: i32)
        ensures
            Registry::stop_post(*old(self), *final(self), id as int, r),
    {
        if id < 1 || (id as usize) > self.entries.len() {
            return CODE_NO_SESSION;
        }
        let idx = (id - 1) as usize;
        if self.entries[idx].is_none() {
            return CODE_NO_SESSION;
        }
        match self.entries[idx].take() {
            Option::Some(mut session) => {
                session.stop();
            },
            Option::None => {
                return CODE_NO_SESSION;
            },
        }
        0
    }

    /// Drop the event route of a handle: the entry, if any, is removed and
    /// nothing else changes.
    pub fn unregister_channel(&mut self, id: i32)
        ensures
            !final(self).has_session(id as int),
            final(self).entries@.len() == old(self).entries@.len(),
            forall|k: int|
                0 <= k < old(self).entries@.len() && k != id - 1 ==> final(self).entries@[k]
                    == old(self).entries@[k],
            forall|j: int| j != id ==> final(self).has_session(j) == old(self).has_session(j),
            forall|j: int|
                j != id && old(self).has_session(j) ==> final(self).state_of(j) == old(
                    self,
                ).state_of(j),
    {
        if id >= 1 && (id as usize) <= self.entries.len() {
            let idx = (id - 1) as usize;
            if self.entries[idx].is_some() {
                self.entries[idx] = None;
            }
        }
    }
}

/// The handle whose session owns a task identifier: sessions are scanned
/// in handle order and the first whose task list carries the identifier
/// wins; events are routed to it. `None` means no registered session's
/// tasks carry the identifier.
pub fn owner_of(reg: &Registry, task_id: &str) -> (r: Option<i32>)
    requires
        reg.entries@.len() <= 0x7FFF_FFFF,
    ensures
        r matches Some(h) ==> 1 <= h && reg.has_session(h as int) && (exists|k: int|
            0 <= k < reg.config_of(h as int).tasks@.len() && (#[trigger] reg.config_of(
                h as int,
            ).tasks@[k]).id@ == task_id@),
        r is None ==> forall|j: int, k: int|
            reg.has_session(j) && 0 <= k < reg.config_of(j).tasks@.len() ==> (#[trigger] reg
                .config_of(j).tasks@[k]).id@ != task_id@,
{
    let mut i: usize = 0;
    while i < reg.entries.len()
        invariant
            reg.entries@.len() <= 0x7FFF_FFFF,
            i <= reg.entries@.len(),
            forall|j: int, k: int|
                1 <= j <= i && reg.has_session(j) && 0 <= k < reg.config_of(j).tasks@.len()
                    ==> (#[trigger] reg.config_of(j).tasks@[k]).id@ != task_id@,
        decreases reg.entries@.len() - i,
    {
        match &reg.entries[i] {
            Option::Some(session) => {
                let mut k: usize = 0;
                while k < session.config.tasks.len()
                    invariant
                        reg.entries@[i as int] is Some,
                        session == reg.entries@[i as int]->Some_0,
                        i < reg.entries@.len(),
                        reg.entries@.len() <= 0x7FFF_FFFF,
                        k <= session.config.tasks@.len(),
                        forall|t: int|
                            0 <= t < k ==> (#[trigger] session.config.tasks@[t]).id@
                                != task_id@,
                    decreases session.config.tasks@.len() - k,
                {
                    if str_eq(session.config.tasks[k].id.as_str(), task_id) {
                        proof {
                            assert(reg.has_session(i + 1));
                            assert(reg.config_of(i + 1).tasks@[k as int].id@ == task_id@);
                        }
                        return Some((i + 1) as i32);
                    }
                    k = k + 1;
                }
                proof {
                    assert(forall|t: int|
                        0 <= t < reg.config_of(i + 1).tasks@.len() ==> (#[trigger] reg.config_of(
                            i + 1,
                        ).tasks@[t]).id@ != task_id@);
                }
            },
            Option::None => {},
        }
        i = i + 1;
    }
    None
}

/// Stop is idempotent: after a successful `stop` the handle is gone, so a
/// second `stop` of the same handle returns the error code and changes
/// nothing — in particular no further events can be emitted for it.
pub proof fn lemma_stop_idempotent(
    r0: Registry,
    r1: Registry,
    r2: Registry,
    id: int,
    code1: i32,
    code2: i32,
)
    requires
        r0.has_session(id),
        Registry::stop_post(r0, r1, id, code1),
        Registry::stop_post(r1, r2, id, code2),
    ensures
        code1 == 0,
        code2 == CODE_NO_SESSION,
        r2 == r1,
{
}

/// Concurrent control: two `start` calls on one idle handle are serialized
/// by the registry lock; the first returns success and leaves the session
/// running, so the second returns the already-running code and changes
/// nothing.
pub proof fn lemma_start_by_id_exclusive(
    r0: Registry,
    r1: Registry,
    r2: Registry,
    id: int,
    code1: i32,
    code2: i32,
)
    requires
        r0.has_session(id),
        !r0.state_of(id).running,
        Registry::start_post(r0, r1, id, code1),
        Registry::start_post(r1, r2, id, code2),
    ensures
        code1 == 0,
        code2 == CODE_ALREADY_RUNNING,
        r2.entries@ == r1.entries@,
{
}

} // verus!
