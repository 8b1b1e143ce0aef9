use vstd::prelude::*;

use crate::messages::SessionInfo;
use crate::session::{clone_opt_string, opt_string_view, OutputPoll, PtySession, SessionView};

verus! {

/// Default grace period, in seconds, before an orphaned session is removed.
pub const DEFAULT_ORPHAN_TIMEOUT_SECONDS: u64 = 300;

/// Why a registry operation failed.
#[derive(PartialEq, Eq, Structural, Clone, Copy, Debug)]
pub enum RegistryError {
    /// No session has the given id.
    NotFound,
    /// A session with the given id exists already.
    AlreadyExists,
    /// The client is not attached to the session.
    NotAttached,
    /// The session's worker is gone, so the request could not be delivered.
    WorkerGone,
}

/// Some session in `s` has the id.
pub open spec fn has_id(s: Seq<SessionView>, id: u128) -> bool {
    exists|i: int| 0 <= i < s.len() && s[i].id == id
}

/// No two sessions share an id.
pub open spec fn unique_ids(s: Seq<SessionView>) -> bool {
    forall|i: int, j: int| 0 <= i < s.len() && 0 <= j < s.len() && i != j ==> s[i].id != s[j].id
}

/// The client is attached to the session with the id.
pub open spec fn is_attached(s: Seq<SessionView>, session_id: u128, client_id: u128) -> bool {
    exists|i: int| 0 <= i < s.len() && s[i].id == session_id && s[i].attached.contains(client_id)
}

pub open spec fn attach_in(s: Seq<SessionView>, session_id: u128, client_id: u128, now: u64) -> Seq<
    SessionView,
> {
    s.map_values(
        |v: SessionView|
            if v.id == session_id {
                v.attach(client_id, now)
            } else {
                v
            },
    )
}

pub open spec fn detach_in(s: Seq<SessionView>, session_id: u128, client_id: u128, now: u64) -> Seq<
    SessionView,
> {
    s.map_values(
        |v: SessionView|
            if v.id == session_id {
                v.detach(client_id, now)
            } else {
                v
            },
    )
}

pub open spec fn touch_in(s: Seq<SessionView>, session_id: u128, now: u64) -> Seq<SessionView> {
    s.map_values(
        |v: SessionView|
            if v.id == session_id {
                v.touch(now)
            } else {
                v
            },
    )
}

pub open spec fn input_in(s: Seq<SessionView>, session_id: u128, data: Seq<u8>, now: u64) -> Seq<
    SessionView,
> {
    s.map_values(
        |v: SessionView|
            if v.id == session_id {
                v.input(data, now)
            } else {
                v
            },
    )
}

pub open spec fn resize_in(s: Seq<SessionView>, session_id: u128, cols: u16, rows: u16) -> Seq<
    SessionView,
> {
    s.map_values(
        |v: SessionView|
            if v.id == session_id {
                v.resized(cols, rows)
            } else {
                v
            },
    )
}

pub open spec fn close_in(s: Seq<SessionView>, session_id: u128) -> Seq<SessionView> {
    s.map_values(
        |v: SessionView|
            if v.id == session_id {
                v.mark_closed()
            } else {
                v
            },
    )
}

/// Every session with the client attached loses it, and its activity time is refreshed.
pub open spec fn detach_all(s: Seq<SessionView>, client_id: u128, now: u64) -> Seq<SessionView> {
    s.map_values(
        |v: SessionView|
            if v.attached.contains(client_id) {
                v.detach(client_id, now)
            } else {
                v
            },
    )
}

/// The sessions with another id, in order.
pub open spec fn remove_id(s: Seq<SessionView>, id: u128) -> Seq<SessionView> {
    s.filter(|v: SessionView| v.id != id)
}

/// The sessions that a sweep keeps, in order.
pub open spec fn sweep(s: Seq<SessionView>, timeout: u64, now: u64) -> Seq<SessionView> {
    s.filter(|v: SessionView| !v.expired(timeout, now))
}

/// The report of one session matches its state.
pub open spec fn info_matches(info: SessionInfo, v: SessionView) -> bool {
    &&& info.id == v.id
    &&& info.shell@ == v.shell
    &&& opt_string_view(info.working_directory) == v.working_directory
    &&& info.attached_clients@.to_set() == v.attached
    &&& info.attached_clients@.len() == v.attached.len()
    &&& info.created_at == v.created_at
    &&& info.last_activity == v.last_activity
}

/// All sessions of the daemon, indexed by id.
pub struct SessionManager {
    sessions: Vec<PtySession>,
    orphan_timeout_seconds: u64,
}

impl View for SessionManager {
    type V = Seq<SessionView>;

    closed spec fn view(&self) -> Seq<SessionView> {
        self.sessions@.map_values(|s: PtySession| s@)
    }
}

proof fn lemma_update_is_map(
    s: Seq<SessionView>,
    i: int,
    id: u128,
    f: spec_fn(SessionView) -> SessionView,
)
    requires
        unique_ids(s),
        0 <= i < s.len(),
        s[i].id == id,
    ensures
        s.update(i, f(s[i])) == s.map_values(
            |v: SessionView|
                if v.id == id {
                    f(v)
                } else {
                    v
                },
        ),
{
    assert(s.update(i, f(s[i])) =~= s.map_values(
        |v: SessionView|
            if v.id == id {
                f(v)
            } else {
                v
            },
    ));
}

proof fn lemma_remove_is_filter(s: Seq<SessionView>, i: int)
    requires
        unique_ids(s),
        0 <= i < s.len(),
    ensures
        s.remove(i) == remove_id(s, s[i].id),
    decreases s.len(),
{
    let id = s[i].id;
    let p = |v: SessionView| v.id != id;
    reveal(Seq::filter);
    if i == s.len() - 1 {
        assert(s.remove(i) =~= s.drop_last());
        lemma_filter_all(s.drop_last(), id);
    } else {
        let d = s.drop_last();
        assert(unique_ids(d));
        lemma_remove_is_filter(d, i);
        assert(s.last().id != id);
        assert(s.remove(i) =~= d.remove(i).push(s.last()));
    }
}

proof fn lemma_filter_all(s: Seq<SessionView>, id: u128)
    requires
        forall|j: int| 0 <= j < s.len() ==> s[j].id != id,
    ensures
        remove_id(s, id) == s,
    decreases s.len(),
{
    reveal(Seq::filter);
    if s.len() > 0 {
        lemma_filter_all(s.drop_last(), id);
        assert(s.drop_last().push(s.last()) =~= s);
    }
}

proof fn lemma_filter_step(s: Seq<SessionView>, k: int, p: spec_fn(SessionView) -> bool)
    requires
        0 <= k < s.len(),
    ensures
        s.subrange(0, k + 1).filter(p) == if p(s[k]) {
            s.subrange(0, k).filter(p).push(s[k])
        } else {
            s.subrange(0, k).filter(p)
        },
{
    reveal(Seq::filter);
    assert(s.subrange(0, k + 1).drop_last() =~= s.subrange(0, k));
}

impl SessionManager {
    /// Session ids are unique, and each session is well formed.
    pub closed spec fn wf(&self) -> bool {
        &&& unique_ids(self@)
        &&& forall|i: int| 0 <= i < self.sessions@.len() ==> (#[trigger] self.sessions@[i]).wf()
    }

    pub proof fn lemma_wf_unique(&self)
        requires
            self.wf(),
        ensures
            unique_ids(self@),
    {
    }

    /// Seconds an orphaned session may stay idle before a sweep removes it.
    pub closed spec fn orphan_timeout(&self) -> u64 {
        self.orphan_timeout_seconds
    }

    pub fn orphan_timeout_seconds(&self) -> (r: u64)
        ensures
            r == self.orphan_timeout(),
    {
        self.orphan_timeout_seconds
    }

    /// An empty registry with the default orphan timeout.
    pub fn new() -> (r: Self)
        ensures
            r.wf(),
            r@ == Seq::<SessionView>::empty(),
            r.orphan_timeout() == DEFAULT_ORPHAN_TIMEOUT_SECONDS,
    {
        Self::with_orphan_timeout(DEFAULT_ORPHAN_TIMEOUT_SECONDS)
    }

    /// An empty registry whose sweep removes orphans idle for more than `seconds`.
    pub fn with_orphan_timeout(seconds: u64) -> (r: Self)
        ensures
            r.wf(),
            r@ == Seq::<SessionView>::empty(),
            r.orphan_timeout() == seconds,
    {
        let r = SessionManager { sessions: Vec::new(), orphan_timeout_seconds: seconds };
        assert(r@ =~= Seq::<SessionView>::empty());
        r
    }

    fn find_index(&self, id: u128) -> (r: Option<usize>)
        ensures
            match r {
                Some(i) => i < self@.len() && self@[i as int].id == id,
                None => !has_id(self@, id),
            },
    {
        let mut i: usize = 0;
        while i < self.sessions.len()
            invariant
                i <= self@.len(),
                self@.len() == self.sessions@.len(),
                forall|j: int| 0 <= j < i ==> self@[j].id != id,
            decreases self@.len() - i,
        {
            if self.sessions[i].id == id {
                return Some(i);
            }
            i = i + 1;
        }
        None
    }

    pub fn has_session(&self, session_id: u128) -> (r: bool)
        ensures
            r == has_id(self@, session_id),
    {
        self.find_index(session_id).is_some()
    }

    pub fn session_count(&self) -> (r: usize)
        ensures
            r == self@.len(),
    {
        self.sessions.len()
    }

    /// Adds a freshly spawned session, unless its id is taken.
    pub fn create_session(&mut self, session: PtySession) -> (r: Result<(), RegistryError>)
        requires
            old(self).wf(),
            session.wf(),
        ensures
            final(self).wf(),
            final(self).orphan_timeout() == old(self).orphan_timeout(),
            r is Err <==> has_id(old(self)@, session@.id),
            r is Err ==> r == Err::<(), RegistryError>(RegistryError::AlreadyExists) && final(self)@ == old(self)@,
            r is Ok ==> final(self)@ == old(self)@.push(session@),
    {
        if self.has_session(session.id) {
            return Err(RegistryError::AlreadyExists);
        }
        let ghost s0 = self@;
        self.sessions.push(session);
        assert(self@ =~= s0.push(session@));
        Ok(())
    }

    /// Removes the session at once; its workers see their channels close and stop.
    pub fn terminate_session(&mut self, session_id: u128) -> (r: Result<(), RegistryError>)
        requires
            old(self).wf(),
        ensures
            final(self).wf(),
            final(self).orphan_timeout() == old(self).orphan_timeout(),
            r is Ok <==> has_id(old(self)@, session_id),
            r is Err ==> r == Err::<(), RegistryError>(RegistryError::NotFound) && final(self)@
                == old(self)@,
            r is Ok ==> final(self)@ == remove_id(old(self)@, session_id),
    {
        match self.find_index(session_id) {
            None => Err(RegistryError::NotFound),
            Some(i) => {
                let ghost s0 = self@;
                proof {
                    lemma_remove_is_filter(s0, i as int);
                }
                let _removed = self.sessions.remove(i);
                assert(self@ =~= s0.remove(i as int));
                assert forall|a: int|
                    0 <= a < self.sessions@.len() implies (#[trigger] self.sessions@[a]).wf() by {
                    if a >= i {
                        assert(self.sessions@[a] == old(self).sessions@[a + 1]);
                    }
                }
                assert(unique_ids(self@)) by {
                    assert forall|a: int, b: int|
                        0 <= a < self@.len() && 0 <= b < self@.len() && a != b implies self@[a].id
                        != self@[b].id by {
                        let aa = if a < i {
                            a
                        } else {
                            a + 1
                        };
                        let bb = if b < i {
                            b
                        } else {
                            b + 1
                        };
                        assert(self@[a] == s0[aa] && self@[b] == s0[bb]);
                    }
                }
                Ok(())
            },
        }
    }

    /// Attaches the client to the session. Attaching a client that is attached already
    /// changes nothing but the activity time.
    pub fn attach_client_to_session(&mut self, session_id: u128, client_id: u128, now: u64) -> (r:
        Result<(), RegistryError>)
        requires
            old(self).wf(),
        ensures
            final(self).wf(),
            final(self).orphan_timeout() == old(self).orphan_timeout(),
            r is Ok <==> has_id(old(self)@, session_id),
            r is Err ==> r == Err::<(), RegistryError>(RegistryError::NotFound) && final(self)@
                == old(self)@,
            r is Ok ==> final(self)@ == attach_in(old(self)@, session_id, client_id, now),
    {
        match self.find_index(session_id) {
            None => Err(RegistryError::NotFound),
            Some(i) => {
                let ghost s0 = self@;
                self.sessions[i].attach_client(client_id, now);
                proof {
                    lemma_update_is_map(s0, i as int, session_id, |v: SessionView| v.attach(client_id, now));
                    assert(self@ =~= s0.update(i as int, s0[i as int].attach(client_id, now)));
                    assert forall|a: int|
                        0 <= a < self.sessions@.len() implies (#[trigger] self.sessions@[a]).wf() by {
                        if a != i {
                            assert(self.sessions@[a] == old(self).sessions@[a]);
                        }
                    }
                }
                Ok(())
            },
        }
    }

    /// Detaches the client from the session. Detaching a client that is not attached is
    /// an error and changes nothing.
    pub fn detach_client_from_session(&mut self, session_id: u128, client_id: u128, now: u64) -> (r:
        Result<(), RegistryError>)
        requires
            old(self).wf(),
        ensures
            final(self).wf(),
            final(self).orphan_timeout() == old(self).orphan_timeout(),
            !has_id(old(self)@, session_id) ==> r == Err::<(), RegistryError>(
                RegistryError::NotFound,
            ),
            has_id(old(self)@, session_id) && !is_attached(old(self)@, session_id, client_id)
                ==> r == Err::<(), RegistryError>(RegistryError::NotAttached),
            r is Ok <==> is_attached(old(self)@, session_id, client_id),
            r is Err ==> final(self)@ == old(self)@,
            r is Ok ==> final(self)@ == detach_in(old(self)@, session_id, client_id, now),
    {
        match self.find_index(session_id) {
            None => {
                assert(!is_attached(self@, session_id, client_id));
                Err(RegistryError::NotFound)
            },
            Some(i) => {
                let ghost s0 = self@;
                let detached = self.sessions[i].detach_client(client_id, now);
                proof {
                    assert forall|a: int|
                        0 <= a < self.sessions@.len() implies (#[trigger] self.sessions@[a]).wf() by {
                        if a != i {
                            assert(self.sessions@[a] == old(self).sessions@[a]);
                        }
                    }
                    if is_attached(s0, session_id, client_id) {
                        let k = choose|k: int|
                            0 <= k < s0.len() && s0[k].id == session_id && s0[k].attached.contains(
                                client_id,
                            );
                        assert(k == i);
                    }
                }
                if detached {
                    proof {
                        lemma_update_is_map(s0, i as int, session_id, |v: SessionView| v.detach(client_id, now));
                        assert(self@ =~= s0.update(i as int, s0[i as int].detach(client_id, now)));
                    }
                    Ok(())
                } else {
                    assert(self@ =~= s0);
                    Err(RegistryError::NotAttached)
                }
            },
        }
    }

    /// Detaches the client from every session it is attached to.
    pub fn detach_client_everywhere(&mut self, client_id: u128, now: u64)
        requires
            old(self).wf(),
        ensures
            final(self).wf(),
            final(self).orphan_timeout() == old(self).orphan_timeout(),
            final(self)@ == detach_all(old(self)@, client_id, now),
    {
        let ghost s0 = self@;
        let mut i: usize = 0;
        while i < self.sessions.len()
            invariant
                self.wf(),
                self.orphan_timeout_seconds == old(self).orphan_timeout_seconds,
                self@.len() == s0.len(),
                self.sessions@.len() == s0.len(),
                i <= s0.len(),
                forall|j: int|
                    0 <= j < i ==> self@[j] == (if s0[j].attached.contains(client_id) {
                        s0[j].detach(client_id, now)
                    } else {
                        s0[j]
                    }),
                forall|j: int| i <= j < s0.len() ==> self@[j] == s0[j],
            decreases s0.len() - i,
        {
            let ghost before = self@;
            let ghost bs = self.sessions@;
            let _was_attached = self.sessions[i].detach_client(client_id, now);
            proof {
                assert(self@[i as int] == self.sessions@[i as int]@);
                assert(before[i as int] == bs[i as int]@);
                assert(before[i as int] == s0[i as int]);
                if _was_attached {
                    assert(self@[i as int] == s0[i as int].detach(client_id, now));
                } else {
                    assert(self@[i as int] == s0[i as int]);
                }
                assert forall|a: int|
                    0 <= a < self.sessions@.len() implies (#[trigger] self.sessions@[a]).wf() by {
                    if a != i {
                        assert(self.sessions@[a] == bs[a]);
                    }
                }
                assert forall|j: int| 0 <= j < self@.len() && j != i implies self@[j] == before[j] by {
                    assert(self.sessions@[j] == bs[j]);
                }
                assert(unique_ids(self@)) by {
                    assert forall|a: int, b: int|
                        0 <= a < self@.len() && 0 <= b < self@.len() && a != b implies self@[a].id
                        != self@[b].id by {
                        assert(self@[a].id == before[a].id && self@[b].id == before[b].id);
                    }
                }
            }
            i = i + 1;
            assert forall|j: int| 0 <= j < i implies self@[j] == (if s0[j].attached.contains(
                client_id,
            ) {
                s0[j].detach(client_id, now)
            } else {
                s0[j]
            }) by {
                if j < i - 1 {
                    assert(self@[j] == before[j]);
                }
            }
        }
        assert(self@ =~= detach_all(s0, client_id, now));
    }

    /// Queues input for the session's shell, refreshing its activity time.
    pub fn send_input_to_session(&mut self, session_id: u128, data: &[u8], now: u64) -> (r: Result<
        (),
        RegistryError,
    >)
        requires
            old(self).wf(),
        ensures
            final(self).wf(),
            final(self).orphan_timeout() == old(self).orphan_timeout(),
            !has_id(old(self)@, session_id) <==> r == Err::<(), RegistryError>(
                RegistryError::NotFound,
            ),
            r is Err ==> final(self)@ == old(self)@,
            r is Err ==> r == Err::<(), RegistryError>(RegistryError::NotFound) || r == Err::<
                (),
                RegistryError,
            >(RegistryError::WorkerGone),
            r is Ok ==> final(self)@ == input_in(old(self)@, session_id, data@, now),
    {
        match self.find_index(session_id) {
            None => Err(RegistryError::NotFound),
            Some(i) => {
                let ghost s0 = self@;
                let sent = self.sessions[i].send_input(data, now);
                proof {
                    assert forall|a: int|
                        0 <= a < self.sessions@.len() implies (#[trigger] self.sessions@[a]).wf() by {
                        if a != i {
                            assert(self.sessions@[a] == old(self).sessions@[a]);
                        }
                    }
                }
                match sent {
                    Ok(()) => {
                        proof {
                            lemma_update_is_map(s0, i as int, session_id, |v: SessionView| v.input(data@, now));
                            assert(self@ =~= s0.update(i as int, s0[i as int].input(data@, now)));
                        }
                        Ok(())
                    },
                    Err(_) => {
                        assert(self@ =~= s0);
                        Err(RegistryError::WorkerGone)
                    },
                }
            },
        }
    }

    /// Takes one pending chunk of the session's output without blocking. No pending output
    /// is `Ok(None)`, not an error.
    pub fn read_output_from_session(&mut self, session_id: u128, now: u64) -> (r: Result<
        Option<Vec<u8>>,
        RegistryError,
    >)
        requires
            old(self).wf(),
        ensures
            final(self).wf(),
            final(self).orphan_timeout() == old(self).orphan_timeout(),
            r is Err <==> !has_id(old(self)@, session_id),
            r is Err ==> r == Err::<Option<Vec<u8>>, RegistryError>(RegistryError::NotFound)
                && final(self)@ == old(self)@,
            r matches Ok(Some(_)) ==> final(self)@ == touch_in(old(self)@, session_id, now),
            r matches Ok(None) ==> final(self)@ == old(self)@ || final(self)@ == close_in(
                old(self)@,
                session_id,
            ),
    {
        match self.poll_session_output(session_id) {
            None => Err(RegistryError::NotFound),
            Some(polled) => self.apply_output_poll(session_id, polled, now),
        }
    }

    /// Looks at the session's output channel without blocking; the registry's state is
    /// not changed. `None` when no session has the id.
    pub fn poll_session_output(&mut self, session_id: u128) -> (r: Option<OutputPoll>)
        requires
            old(self).wf(),
        ensures
            final(self).wf(),
            final(self)@ == old(self)@,
            final(self).orphan_timeout() == old(self).orphan_timeout(),
            r is None <==> !has_id(old(self)@, session_id),
    {
        match self.find_index(session_id) {
            None => None,
            Some(i) => {
                let ghost s0 = self@;
                let polled = self.sessions[i].poll();
                proof {
                    assert forall|a: int|
                        0 <= a < self.sessions@.len() implies (#[trigger] self.sessions@[a]).wf() by {
                        assert(self.sessions@[a].attached_clients == old(self).sessions@[a].attached_clients);
                    }
                    assert(self@ =~= s0);
                }
                Some(polled)
            },
        }
    }

    /// What a look at the session's output channel means for the registry: a chunk is
    /// returned and refreshes the session's activity time; nothing pending changes
    /// nothing; an ended output marks the session closed.
    pub fn apply_output_poll(&mut self, session_id: u128, p: OutputPoll, now: u64) -> (r: Result<
        Option<Vec<u8>>,
        RegistryError,
    >)
        requires
            old(self).wf(),
        ensures
            final(self).wf(),
            final(self).orphan_timeout() == old(self).orphan_timeout(),
            r is Err <==> !has_id(old(self)@, session_id),
            r is Err ==> r == Err::<Option<Vec<u8>>, RegistryError>(RegistryError::NotFound)
                && final(self)@ == old(self)@,
            has_id(old(self)@, session_id) ==> {
                &&& p matches OutputPoll::Chunk(d) ==> (r matches Ok(Some(x)) && x@ == d@) && final(self)@ == touch_in(old(self)@, session_id, now)
                &&& p is Empty ==> r == Ok::<Option<Vec<u8>>, RegistryError>(None) && final(self)@ == old(self)@
                &&& p is Closed ==> r == Ok::<Option<Vec<u8>>, RegistryError>(None) && final(self)@ == close_in(
                    old(self)@,
                    session_id,
                )
            },
    {
        match self.find_index(session_id) {
            None => Err(RegistryError::NotFound),
            Some(i) => {
                let ghost s0 = self@;
                let ghost p0 = p;
                let out = self.sessions[i].apply_poll(p, now);
                proof {
                    assert forall|a: int|
                        0 <= a < self.sessions@.len() implies (#[trigger] self.sessions@[a]).wf() by {
                        if a != i {
                            assert(self.sessions@[a] == old(self).sessions@[a]);
                        }
                    }
                    if p0 is Chunk {
                        lemma_update_is_map(s0, i as int, session_id, |v: SessionView| v.touch(now));
                        assert(self@ =~= s0.update(i as int, s0[i as int].touch(now)));
                    } else if p0 is Empty {
                        assert(self@ =~= s0);
                    } else {
                        lemma_update_is_map(s0, i as int, session_id, |v: SessionView| v.mark_closed());
                        assert(self@ =~= s0.update(i as int, s0[i as int].mark_closed()));
                    }
                }
                Ok(out)
            },
        }
    }

    /// Asks the session's worker to resize its terminal.
    pub fn resize_session(&mut self, session_id: u128, cols: u16, rows: u16) -> (r: Result<
        (),
        RegistryError,
    >)
        requires
            old(self).wf(),
        ensures
            final(self).wf(),
            final(self).orphan_timeout() == old(self).orphan_timeout(),
            !has_id(old(self)@, session_id) <==> r == Err::<(), RegistryError>(
                RegistryError::NotFound,
            ),
            r is Err ==> final(self)@ == old(self)@,
            r is Err ==> r == Err::<(), RegistryError>(RegistryError::NotFound) || r == Err::<
                (),
                RegistryError,
            >(RegistryError::WorkerGone),
            r is Ok ==> final(self)@ == resize_in(old(self)@, session_id, cols, rows),
    {
        match self.find_index(session_id) {
            None => Err(RegistryError::NotFound),
            Some(i) => {
                let ghost s0 = self@;
                let resized = self.sessions[i].resize(cols, rows);
                proof {
                    assert forall|a: int|
                        0 <= a < self.sessions@.len() implies (#[trigger] self.sessions@[a]).wf() by {
                        if a != i {
                            assert(self.sessions@[a] == old(self).sessions@[a]);
                        }
                    }
                }
                match resized {
                    Ok(()) => {
                        proof {
                            lemma_update_is_map(s0, i as int, session_id, |v: SessionView| v.resized(cols, rows));
                            assert(self@ =~= s0.update(i as int, s0[i as int].resized(cols, rows)));
                        }
                        Ok(())
                    },
                    Err(_) => {
                        assert(self@ =~= s0);
                        Err(RegistryError::WorkerGone)
                    },
                }
            },
        }
    }

    /// Reports every session, in registry order.
    pub fn list_sessions(&self) -> (r: Vec<SessionInfo>)
        requires
            self.wf(),
        ensures
            r@.len() == self@.len(),
            forall|i: int| 0 <= i < r@.len() ==> info_matches(#[trigger] r@[i], self@[i]),
    {
        let mut r: Vec<SessionInfo> = Vec::new();
        let mut i: usize = 0;
        while i < self.sessions.len()
            invariant
                self.wf(),
                i <= self@.len(),
                self@.len() == self.sessions@.len(),
                r@.len() == i,
                forall|j: int| 0 <= j < i ==> info_matches(#[trigger] r@[j], self@[j]),
            decreases self@.len() - i,
        {
            let s = &self.sessions[i];
            assert(s.wf());
            let mut clients: Vec<u128> = Vec::new();
            let mut k: usize = 0;
            while k < s.attached_clients.len()
                invariant
                    k <= s.attached_clients@.len(),
                    clients@ == s.attached_clients@.subrange(0, k as int),
                decreases s.attached_clients@.len() - k,
            {
                clients.push(s.attached_clients[k]);
                k = k + 1;
            }
            assert(clients@ =~= s.attached_clients@);
            proof {
                s.attached_clients@.unique_seq_to_set();
            }
            r.push(
                SessionInfo {
                    id: s.id,
                    shell: s.shell.clone(),
                    working_directory: clone_opt_string(&s.working_directory),
                    attached_clients: clients,
                    created_at: s.created_at,
                    last_activity: s.last_activity,
                },
            );
            i = i + 1;
        }
        r
    }

    /// Removes every session whose shell has gone, and every orphan idle for longer than
    /// the orphan timeout. The others stay, in order.
    pub fn cleanup_orphaned_sessions(&mut self, now: u64)
        requires
            old(self).wf(),
        ensures
            final(self).wf(),
            final(self).orphan_timeout() == old(self).orphan_timeout(),
            final(self)@ == sweep(old(self)@, old(self).orphan_timeout(), now),
    {
        let ghost s0 = self@;
        let ghost p = |v: SessionView| !v.expired(self.orphan_timeout_seconds, now);
        let ghost mut k: int = 0;
        let mut i: usize = 0;
        while i < self.sessions.len()
            invariant
                self.wf(),
                self.orphan_timeout_seconds == old(self).orphan_timeout_seconds,
                p == (|v: SessionView| !v.expired(self.orphan_timeout_seconds, now)),
                0 <= k <= s0.len(),
                self@ == s0.subrange(0, k).filter(p) + s0.subrange(k, s0.len() as int),
                i == s0.subrange(0, k).filter(p).len(),
                self@.len() == self.sessions@.len(),
            decreases s0.len() - k,
        {
            proof {
                lemma_filter_step(s0, k, p);
                assert(self@[i as int] == s0[k]);
            }
            let expired = self.sessions[i].is_closed() || self.sessions[i].should_cleanup(
                self.orphan_timeout_seconds,
                now,
            );
            if expired {
                let ghost before = self@;
                let _removed = self.sessions.remove(i);
                proof {
                    assert(self@ =~= before.remove(i as int));
                    assert forall|a: int|
                        0 <= a < self.sessions@.len() implies (#[trigger] self.sessions@[a]).wf() by {
                        if a >= i {
                            assert(self.sessions@[a] == self.sessions@[a]);
                        }
                    }
                    assert(unique_ids(self@)) by {
                        assert forall|a: int, b: int|
                            0 <= a < self@.len() && 0 <= b < self@.len() && a != b implies self@[a].id
                            != self@[b].id by {
                            let aa = if a < i {
                                a
                            } else {
                                a + 1
                            };
                            let bb = if b < i {
                                b
                            } else {
                                b + 1
                            };
                            assert(self@[a] == before[aa] && self@[b] == before[bb]);
                        }
                    }
                    assert(self@ =~= s0.subrange(0, k + 1).filter(p) + s0.subrange(
                        k + 1,
                        s0.len() as int,
                    ));
                }
            } else {
                i = i + 1;
                proof {
                    assert(self@ =~= s0.subrange(0, k + 1).filter(p) + s0.subrange(
                        k + 1,
                        s0.len() as int,
                    ));
                }
            }
            proof {
                k = k + 1;
            }
        }
        proof {
            assert(s0.subrange(0, s0.len() as int) =~= s0);
            assert(self@ =~= sweep(s0, self.orphan_timeout_seconds, now));
        }
    }
}

/// A sweep removes every session that is orphaned and idle for longer than the timeout,
/// and every session whose shell is gone; it keeps every other session.
pub proof fn lemma_sweep_removes_expired(s: Seq<SessionView>, timeout: u64, now: u64)
    requires
        unique_ids(s),
    ensures
        forall|i: int|
            0 <= i < s.len() && (#[trigger] s[i]).should_cleanup(timeout, now) ==> !has_id(
                sweep(s, timeout, now),
                s[i].id,
            ),
        forall|i: int|
            0 <= i < s.len() && (#[trigger] s[i]).closed ==> !has_id(sweep(s, timeout, now), s[i].id),
        forall|i: int|
            0 <= i < s.len() && !(#[trigger] s[i]).expired(timeout, now) ==> sweep(
                s,
                timeout,
                now,
            ).contains(s[i]),
{
    let p = |v: SessionView| !v.expired(timeout, now);
    let t = sweep(s, timeout, now);
    assert forall|i: int| 0 <= i < s.len() && (#[trigger] s[i]).expired(timeout, now) implies !has_id(
        t,
        s[i].id,
    ) by {
        if has_id(t, s[i].id) {
            let j = choose|j: int| 0 <= j < t.len() && t[j].id == s[i].id;
            s.lemma_filter_pred(p, j);
            s.lemma_filter_contains_rev(p, t[j]);
            let m = choose|m: int| 0 <= m < s.len() && s[m] == t[j];
            assert(m == i);
        }
    }
    assert forall|i: int| 0 <= i < s.len() && !(#[trigger] s[i]).expired(timeout, now) implies t.contains(
        s[i],
    ) by {
        s.lemma_filter_contains(p, i);
    }
}

/// Attaching a client to a session a second time changes nothing: the client is in the
/// attached set once, and the state equals that after a single attach.
pub proof fn lemma_attach_idempotent(s: Seq<SessionView>, session_id: u128, client_id: u128, now: u64)
    ensures
        attach_in(attach_in(s, session_id, client_id, now), session_id, client_id, now) == attach_in(
            s,
            session_id,
            client_id,
            now,
        ),
{
    let once = attach_in(s, session_id, client_id, now);
    let twice = attach_in(once, session_id, client_id, now);
    assert forall|i: int| 0 <= i < s.len() implies twice[i] == once[i] by {
        if s[i].id == session_id {
            assert(once[i].attached.insert(client_id) =~= once[i].attached);
        }
    }
    assert(twice =~= once);
}

} // verus!
