use vstd::prelude::*;

use tokio::sync::mpsc::error::TryRecvError;
use tokio::sync::mpsc::{UnboundedReceiver, UnboundedSender};

verus! {

#[verifier::external_type_specification]
#[verifier::external_body]
#[verifier::reject_recursive_types(T)]
pub struct ExUnboundedSender<T>(tokio::sync::mpsc::UnboundedSender<T>);

#[verifier::external_type_specification]
#[verifier::external_body]
#[verifier::reject_recursive_types(T)]
pub struct ExUnboundedReceiver<T>(tokio::sync::mpsc::UnboundedReceiver<T>);

/// A request for the session's writer worker, which owns the master side of the PTY.
#[derive(Debug, Clone)]
pub enum PtyRequest {
    /// Bytes to write to the shell's input, in order.
    Input(Vec<u8>),
    /// A new window size for the terminal.
    Resize { cols: u16, rows: u16 },
}

/// What a non-blocking look at the output channel found.
pub enum OutputPoll {
    /// One chunk of output, in the order the PTY produced it.
    Chunk(Vec<u8>),
    /// Nothing is pending, but more may come.
    Empty,
    /// The reader worker has finished and every chunk was taken.
    Closed,
}

/// Why an operation on a live session failed.
#[derive(PartialEq, Eq, Structural, Clone, Copy, Debug)]
pub enum SessionError {
    /// The session's worker is gone, so the request cannot be delivered.
    WorkerGone,
}

/// Relies on tokio's `UnboundedSender::send`: it never blocks, and fails only when the
/// receiving half has been closed or dropped.
#[verifier::external_body]
fn send_request(tx: &UnboundedSender<PtyRequest>, request: PtyRequest) -> (accepted: bool) {
    tx.send(request).is_ok()
}

/// Relies on tokio's `UnboundedReceiver::try_recv`: a queued message, or `Empty` while
/// a sender is alive, or `Disconnected` once all senders are gone and the queue is empty.
#[verifier::external_body]
fn poll_output(rx: &mut UnboundedReceiver<Vec<u8>>) -> (r: OutputPoll) {
    match rx.try_recv() {
        Ok(data) => OutputPoll::Chunk(data),
        Err(TryRecvError::Empty) => OutputPoll::Empty,
        Err(TryRecvError::Disconnected) => OutputPoll::Closed,
    }
}

/// A request as handed to the writer worker, in mathematical form.
pub enum SentRequest {
    Input(Seq<u8>),
    Resize { cols: u16, rows: u16 },
}

/// The later of two times.
pub open spec fn later(a: u64, b: u64) -> u64 {
    if a >= b {
        a
    } else {
        b
    }
}

/// The mathematical state of a session.
pub struct SessionView {
    pub id: u128,
    pub shell: Seq<char>,
    pub working_directory: Option<Seq<char>>,
    pub attached: Set<u128>,
    pub created_at: u64,
    pub last_activity: u64,
    /// The shell's output has ended and was read to the end.
    pub closed: bool,
    /// Every request handed to the writer worker, in order.
    pub sent: Seq<SentRequest>,
}

impl SessionView {
    /// Records activity at `now`; the activity time never goes back.
    pub open spec fn touch(self, now: u64) -> SessionView {
        SessionView { last_activity: later(self.last_activity, now), ..self }
    }

    pub open spec fn attach(self, client_id: u128, now: u64) -> SessionView {
        SessionView {
            attached: self.attached.insert(client_id),
            last_activity: later(self.last_activity, now),
            ..self
        }
    }

    pub open spec fn detach(self, client_id: u128, now: u64) -> SessionView {
        SessionView {
            attached: self.attached.remove(client_id),
            last_activity: later(self.last_activity, now),
            ..self
        }
    }

    /// Input handed to the writer worker at `now`.
    pub open spec fn input(self, data: Seq<u8>, now: u64) -> SessionView {
        SessionView { sent: self.sent.push(SentRequest::Input(data)), ..self.touch(now) }
    }

    /// A resize handed to the writer worker.
    pub open spec fn resized(self, cols: u16, rows: u16) -> SessionView {
        SessionView { sent: self.sent.push(SentRequest::Resize { cols, rows }), ..self }
    }

    pub open spec fn mark_closed(self) -> SessionView {
        SessionView { closed: true, ..self }
    }

    pub open spec fn is_orphaned(self) -> bool {
        self.attached.is_empty()
    }

    /// No client is attached, and more than `timeout` seconds passed since the last activity.
    pub open spec fn should_cleanup(self, timeout: u64, now: u64) -> bool {
        self.is_orphaned() && now >= self.last_activity && now - self.last_activity > timeout
    }

    /// The session is due for removal: its shell is gone, or it is an orphan past its timeout.
    pub open spec fn expired(self, timeout: u64, now: u64) -> bool {
        self.closed || self.should_cleanup(timeout, now)
    }
}

pub open spec fn opt_string_view(o: Option<String>) -> Option<Seq<char>> {
    match o {
        Some(s) => Some(s@),
        None => None,
    }
}

pub fn clone_opt_string(o: &Option<String>) -> (r: Option<String>)
    ensures
        opt_string_view(r) == opt_string_view(*o),
{
    match o {
        Some(s) => Some(s.clone()),
        None => None,
    }
}

/// One shell running under a pseudo-terminal, as the registry sees it: its metadata,
/// the clients attached to it, and the two channels to its worker threads.
pub struct PtySession {
    pub id: u128,
    pub shell: String,
    pub working_directory: Option<String>,
    pub attached_clients: Vec<u128>,
    pub created_at: u64,
    pub last_activity: u64,
    pub closed: bool,
    pub input_sender: UnboundedSender<PtyRequest>,
    pub output_receiver: UnboundedReceiver<Vec<u8>>,
    /// The requests handed to the writer worker so far.
    pub sent: Ghost<Seq<SentRequest>>,
}

impl View for PtySession {
    type V = SessionView;

    open spec fn view(&self) -> SessionView {
        SessionView {
            id: self.id,
            shell: self.shell@,
            working_directory: opt_string_view(self.working_directory),
            attached: self.attached_clients@.to_set(),
            created_at: self.created_at,
            last_activity: self.last_activity,
            closed: self.closed,
            sent: self.sent@,
        }
    }
}

impl PtySession {
    /// Each attached client is listed once.
    pub open spec fn wf(&self) -> bool {
        self.attached_clients@.no_duplicates()
    }

    /// A session for a shell that was just spawned, with the channels to its writer
    /// and reader workers.
    pub fn new(
        id: u128,
        shell: String,
        working_directory: Option<String>,
        now: u64,
        input_sender: UnboundedSender<PtyRequest>,
        output_receiver: UnboundedReceiver<Vec<u8>>,
    ) -> (r: Self)
        ensures
            r.wf(),
            r@ == (SessionView {
                id,
                shell: shell@,
                working_directory: opt_string_view(working_directory),
                attached: Set::empty(),
                created_at: now,
                last_activity: now,
                closed: false,
                sent: Seq::empty(),
            }),
    {
        let r = PtySession {
            id,
            shell,
            working_directory,
            attached_clients: Vec::new(),
            created_at: now,
            last_activity: now,
            closed: false,
            input_sender,
            output_receiver,
            sent: Ghost(Seq::empty()),
        };
        assert(r.attached_clients@.to_set() =~= Set::empty());
        r
    }

    /// Adds the client to the attached set (once only) and refreshes the activity time.
    pub fn attach_client(&mut self, client_id: u128, now: u64)
        requires
            old(self).wf(),
        ensures
            final(self).wf(),
            final(self)@ == old(self)@.attach(client_id, now),
    {
        if !contains_client(&self.attached_clients, client_id) {
            proof {
                self.attached_clients@.lemma_push_to_set_commute(client_id);
            }
            self.attached_clients.push(client_id);
            assert(self.attached_clients@.no_duplicates());
        } else {
            assert(old(self).attached_clients@.to_set().contains(client_id));
            assert(self.attached_clients@.to_set() =~= old(self).attached_clients@.to_set().insert(
                client_id,
            ));
        }
        self.touch(now);
    }

    /// Removes an attached client and refreshes the activity time. A client that is not
    /// attached leaves the session as it was, and `false` is returned.
    pub fn detach_client(&mut self, client_id: u128, now: u64) -> (r: bool)
        requires
            old(self).wf(),
        ensures
            final(self).wf(),
            r == old(self)@.attached.contains(client_id),
            r ==> final(self)@ == old(self)@.detach(client_id, now),
            !r ==> final(self)@ == old(self)@,
    {
        let ghost a = self.attached_clients@;
        let mut i: usize = 0;
        while i < self.attached_clients.len()
            invariant
                self.attached_clients@ == a,
                a == old(self).attached_clients@,
                a.no_duplicates(),
                self@ == old(self)@,
                i <= a.len(),
                forall|j: int| 0 <= j < i ==> a[j] != client_id,
            decreases a.len() - i,
        {
            if self.attached_clients[i] == client_id {
                proof {
                    lemma_remove_to_set(a, i as int);
                    assert(a.contains(client_id));
                }
                self.attached_clients.remove(i);
                self.touch(now);
                return true;
            }
            i = i + 1;
        }
        assert(!a.contains(client_id));
        false
    }

    /// Moves the activity time forward to `now`, never back.
    fn touch(&mut self, now: u64)
        ensures
            final(self)@ == old(self)@.touch(now),
            final(self).attached_clients == old(self).attached_clients,
    {
        if now > self.last_activity {
            self.last_activity = now;
        }
    }

    /// Queues bytes for the shell's input; on success the bytes are recorded as handed to
    /// the writer worker and the activity time is refreshed. Never blocks.
    pub fn send_input(&mut self, data: &[u8], now: u64) -> (r: Result<(), SessionError>)
        requires
            old(self).wf(),
        ensures
            final(self).wf(),
            r is Ok ==> final(self)@ == old(self)@.input(data@, now),
            r is Err ==> final(self)@ == old(self)@,
    {
        let request = input_request(data);
        if send_request(&self.input_sender, request) {
            self.sent = Ghost(self.sent@.push(SentRequest::Input(data@)));
            self.touch(now);
            Ok(())
        } else {
            Err(SessionError::WorkerGone)
        }
    }

    /// Looks at the output channel without blocking; the session's state is not changed.
    pub fn poll(&mut self) -> (r: OutputPoll)
        ensures
            final(self)@ == old(self)@,
            final(self).attached_clients == old(self).attached_clients,
    {
        poll_output(&mut self.output_receiver)
    }

    /// Takes one pending chunk of output without blocking, and applies what was found.
    pub fn read_output(&mut self, now: u64) -> (r: Option<Vec<u8>>)
        requires
            old(self).wf(),
        ensures
            final(self).wf(),
            r is Some ==> final(self)@ == old(self)@.touch(now),
            r is None ==> final(self)@ == old(self)@ || final(self)@ == old(self)@.mark_closed(),
    {
        let polled = self.poll();
        self.apply_poll(polled, now)
    }

    /// What a look at the output channel means for the session: a chunk is returned and
    /// refreshes the activity time; nothing pending changes nothing; an ended output
    /// marks the session closed.
    pub fn apply_poll(&mut self, p: OutputPoll, now: u64) -> (r: Option<Vec<u8>>)
        requires
            old(self).wf(),
        ensures
            final(self).wf(),
            p matches OutputPoll::Chunk(d) ==> (r matches Some(x) && x@ == d@) && final(self)@ == old(self)@.touch(now),
            p is Empty ==> r is None && final(self)@ == old(self)@,
            p is Closed ==> r is None && final(self)@ == old(self)@.mark_closed(),
    {
        match p {
            OutputPoll::Chunk(data) => {
                self.touch(now);
                Some(data)
            },
            OutputPoll::Empty => None,
            OutputPoll::Closed => {
                self.closed = true;
                None
            },
        }
    }

    /// Asks the writer worker to set the terminal's window size; on success the request
    /// is recorded as handed to it.
    pub fn resize(&mut self, cols: u16, rows: u16) -> (r: Result<(), SessionError>)
        requires
            old(self).wf(),
        ensures
            final(self).wf(),
            r is Ok ==> final(self)@ == old(self)@.resized(cols, rows),
            r is Err ==> final(self)@ == old(self)@,
    {
        let request = resize_request(cols, rows);
        if send_request(&self.input_sender, request) {
            self.sent = Ghost(self.sent@.push(SentRequest::Resize { cols, rows }));
            Ok(())
        } else {
            Err(SessionError::WorkerGone)
        }
    }

    pub fn is_orphaned(&self) -> (r: bool)
        ensures
            r == self@.is_orphaned(),
    {
        if self.attached_clients.len() == 0 {
            assert(self.attached_clients@.to_set() =~= Set::empty());
            true
        } else {
            assert(self.attached_clients@.to_set().contains(self.attached_clients@[0]));
            false
        }
    }

    pub fn should_cleanup(&self, timeout_seconds: u64, now: u64) -> (r: bool)
        ensures
            r == self@.should_cleanup(timeout_seconds, now),
    {
        if !self.is_orphaned() {
            return false;
        }
        now >= self.last_activity && now - self.last_activity > timeout_seconds
    }

    pub fn is_closed(&self) -> (r: bool)
        ensures
            r == self@.closed,
    {
        self.closed
    }
}

proof fn lemma_remove_to_set(a: Seq<u128>, i: int)
    requires
        a.no_duplicates(),
        0 <= i < a.len(),
    ensures
        a.remove(i).to_set() == a.to_set().remove(a[i]),
        a.remove(i).no_duplicates(),
{
    let b = a.remove(i);
    assert forall|x: u128| b.contains(x) <==> (a.contains(x) && x != a[i]) by {
        if b.contains(x) {
            let k = choose|k: int| 0 <= k < b.len() && b[k] == x;
            if k < i {
                assert(a[k] == x);
            } else {
                assert(a[k + 1] == x);
            }
        }
        if a.contains(x) && x != a[i] {
            let k = choose|k: int| 0 <= k < a.len() && a[k] == x;
            if k < i {
                assert(b[k] == x);
            } else {
                assert(b[k - 1] == x);
            }
        }
    }
    assert(b.to_set() =~= a.to_set().remove(a[i]));
    assert forall|p: int, q: int| 0 <= p < b.len() && 0 <= q < b.len() && p != q implies b[p] != b[q] by {
        let pp = if p < i { p } else { p + 1 };
        let qq = if q < i { q } else { q + 1 };
        assert(b[p] == a[pp] && b[q] == a[qq]);
    }
}

/// The mathematical form of a request.
pub open spec fn request_view(r: PtyRequest) -> SentRequest {
    match r {
        PtyRequest::Input(d) => SentRequest::Input(d@),
        PtyRequest::Resize { cols, rows } => SentRequest::Resize { cols, rows },
    }
}

/// The request that writes the bytes to the shell.
pub fn input_request(data: &[u8]) -> (r: PtyRequest)
    ensures
        request_view(r) == SentRequest::Input(data@),
{
    let bytes = crate::wire::copy_range(data, 0, data.len());
    assert(bytes@ =~= data@);
    PtyRequest::Input(bytes)
}

/// The request that sets the terminal to `cols` columns and `rows` rows.
pub fn resize_request(cols: u16, rows: u16) -> (r: PtyRequest)
    ensures
        request_view(r) == (SentRequest::Resize { cols, rows }),
{
    PtyRequest::Resize { cols, rows }
}

/// Whether the client appears in the list.
pub fn contains_client(v: &Vec<u128>, client_id: u128) -> (r: bool)
    ensures
        r == v@.contains(client_id),
{
    let mut i: usize = 0;
    while i < v.len()
        invariant
            i <= v@.len(),
            forall|j: int| 0 <= j < i ==> v@[j] != client_id,
        decreases v@.len() - i,
    {
        if v[i] == client_id {
            return true;
        }
        i = i + 1;
    }
    false
}

} // verus!
