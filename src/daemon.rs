use vstd::prelude::*;

use crate::messages::{ClientMessage, DaemonMessage};
use crate::registry::{
    attach_in, close_in, detach_all, detach_in, has_id, info_matches, input_in, is_attached,
    remove_id, resize_in, sweep, touch_in, unique_ids, RegistryError, SessionManager,
};
use crate::session::{opt_string_view, OutputPoll, PtySession, SessionView};

verus! {

/// What the connection should do after a control message.
pub enum Outcome {
    /// Send this reply to the client.
    Reply(DaemonMessage),
    /// Send nothing.
    Silent,
    /// Spawn a shell for a new session, then hand it to `complete_create`.
    Spawn { session_id: u128, shell: String, working_directory: Option<String> },
}

/// The text of the error reply for a failed registry operation.
pub open spec fn error_text(e: RegistryError) -> Seq<char> {
    match e {
        RegistryError::NotFound => "session not found"@,
        RegistryError::AlreadyExists => "session already exists"@,
        RegistryError::NotAttached => "client is not attached to the session"@,
        RegistryError::WorkerGone => "session worker has stopped"@,
    }
}

pub fn error_message(e: RegistryError) -> (r: String)
    ensures
        r@ == error_text(e),
{
    let text: &str = match e {
        RegistryError::NotFound => "session not found",
        RegistryError::AlreadyExists => "session already exists",
        RegistryError::NotAttached => "client is not attached to the session",
        RegistryError::WorkerGone => "session worker has stopped",
    };
    proof {
        reveal_strlit("session not found");
        reveal_strlit("session already exists");
        reveal_strlit("client is not attached to the session");
        reveal_strlit("session worker has stopped");
    }
    let s = text.to_string();
    proof {
        vstd::string::to_string_from_display_ensures_for_str(text, s);
    }
    s
}

/// The reply that reports a failed registry operation.
pub open spec fn is_error_reply(r: Outcome, e: RegistryError) -> bool {
    r matches Outcome::Reply(DaemonMessage::Error { message }) && message@ == error_text(e)
}

/// The message that reports a failed registry operation.
pub open spec fn is_error_message(m: DaemonMessage, e: RegistryError) -> bool {
    m matches DaemonMessage::Error { message } && message@ == error_text(e)
}

fn error_reply(e: RegistryError) -> (r: Outcome)
    ensures
        is_error_reply(r, e),
{
    Outcome::Reply(DaemonMessage::Error { message: error_message(e) })
}

/// A binding of another client.
pub open spec fn of_other_client(client_id: u128) -> spec_fn((u128, u128)) -> bool {
    |p: (u128, u128)| p.0 != client_id
}

/// The bindings without the client's.
pub open spec fn unbind(b: Seq<(u128, u128)>, client_id: u128) -> Seq<(u128, u128)> {
    b.filter(of_other_client(client_id))
}

/// The bindings with the client bound to the session, in place of any earlier binding.
pub open spec fn bind(b: Seq<(u128, u128)>, client_id: u128, session_id: u128) -> Seq<(u128, u128)> {
    unbind(b, client_id).push((client_id, session_id))
}

/// The bindings whose session is still in the registry.
pub open spec fn prune(b: Seq<(u128, u128)>, reg: Seq<SessionView>) -> Seq<(u128, u128)> {
    b.filter(of_present(reg))
}

/// The client has a binding, to the given session.
pub open spec fn bound_to(b: Seq<(u128, u128)>, client_id: u128, session_id: u128) -> bool {
    exists|k: int| 0 <= k < b.len() && b[k] == (client_id, session_id)
}

/// The client has some binding.
pub open spec fn is_bound(b: Seq<(u128, u128)>, client_id: u128) -> bool {
    exists|k: int| 0 <= k < b.len() && b[k].0 == client_id
}

/// Each client has at most one binding.
pub open spec fn unique_clients(b: Seq<(u128, u128)>) -> bool {
    forall|i: int, j: int| 0 <= i < b.len() && 0 <= j < b.len() && i != j ==> b[i].0 != b[j].0
}

/// Every binding points to a session in the registry, and each session's attached set is
/// exactly the set of clients bound to it.
pub open spec fn bindings_exact(reg: Seq<SessionView>, b: Seq<(u128, u128)>) -> bool {
    &&& forall|k: int| 0 <= k < b.len() ==> has_id(reg, (#[trigger] b[k]).1)
    &&& forall|i: int, c: u128|
        0 <= i < reg.len() ==> (#[trigger] reg[i].attached.contains(c) <==> bound_to(
            b,
            c,
            reg[i].id,
        ))
}

/// A binding whose session is in the registry.
pub open spec fn of_present(reg: Seq<SessionView>) -> spec_fn((u128, u128)) -> bool {
    |p: (u128, u128)| has_id(reg, p.1)
}

/// The clients bound to the session.
pub open spec fn bound_clients(b: Seq<(u128, u128)>, session_id: u128) -> Set<u128> {
    Set::new(|c: u128| bound_to(b, c, session_id))
}

/// The daemon's shared state: the session registry, and the session that each client's
/// raw-bytes frames go to.
pub struct PtyDaemon {
    session_manager: SessionManager,
    client_sessions: Vec<(u128, u128)>,
}

proof fn lemma_filter_step_pairs(s: Seq<(u128, u128)>, k: int, p: spec_fn((u128, u128)) -> bool)
    requires
        0 <= k < s.len(),
    ensures
        s.subrange(0, k + 1).filter(p) == if p(s[k]) {
            s.subrange(0, k).filter(p).push(s[k])
        } else {
            s.subrange(0, k).filter(p)
        },
{
    reveal(Seq::filter);
    assert(s.subrange(0, k + 1).drop_last() =~= s.subrange(0, k));
}

proof fn lemma_filter_keeps_unique(b: Seq<(u128, u128)>, p: spec_fn((u128, u128)) -> bool)
    requires
        unique_clients(b),
    ensures
        unique_clients(b.filter(p)),
        forall|k: int| 0 <= k < b.filter(p).len() ==> b.contains(#[trigger] b.filter(p)[k]),
    decreases b.len(),
{
    let f = b.filter(p);
    assert forall|k: int| 0 <= k < f.len() implies b.contains(#[trigger] f[k]) by {
        b.lemma_filter_contains_rev(p, f[k]);
        b.lemma_filter_pred(p, k);
    }
    reveal(Seq::filter);
    if b.len() > 0 {
        let d = b.drop_last();
        assert(unique_clients(d));
        lemma_filter_keeps_unique(d, p);
        let fd = d.filter(p);
        if p(b.last()) {
            assert(f == fd.push(b.last()));
            assert forall|i: int, j: int|
                0 <= i < f.len() && 0 <= j < f.len() && i != j implies f[i].0 != f[j].0 by {
                if i < fd.len() && j < fd.len() {
                } else if i < fd.len() {
                    assert(d.contains(fd[i]));
                    let m = choose|m: int| 0 <= m < d.len() && d[m] == fd[i];
                    assert(b[m] == d[m]);
                } else if j < fd.len() {
                    assert(d.contains(fd[j]));
                    let m = choose|m: int| 0 <= m < d.len() && d[m] == fd[j];
                    assert(b[m] == d[m]);
                }
            }
        }
    }
}

proof fn lemma_unbind_elems(b: Seq<(u128, u128)>, client_id: u128)
    ensures
        forall|k: int|
            0 <= k < unbind(b, client_id).len() ==> (#[trigger] unbind(b, client_id)[k]).0
                != client_id && b.contains(unbind(b, client_id)[k]),
{
    let p = of_other_client(client_id);
    assert forall|k: int| 0 <= k < unbind(b, client_id).len() implies (#[trigger] unbind(
        b,
        client_id,
    )[k]).0 != client_id && b.contains(unbind(b, client_id)[k]) by {
        b.lemma_filter_pred(p, k);
        b.lemma_filter_contains_rev(p, b.filter(p)[k]);
    }
}

proof fn lemma_unbind_absent(b: Seq<(u128, u128)>, client_id: u128)
    requires
        forall|j: int| 0 <= j < b.len() ==> b[j].0 != client_id,
    ensures
        unbind(b, client_id) == b,
    decreases b.len(),
{
    reveal(Seq::filter);
    if b.len() > 0 {
        lemma_unbind_absent(b.drop_last(), client_id);
        assert(b.drop_last().push(b.last()) =~= b);
    }
}

proof fn lemma_unbind_remove(b: Seq<(u128, u128)>, i: int)
    requires
        unique_clients(b),
        0 <= i < b.len(),
    ensures
        b.remove(i) == unbind(b, b[i].0),
    decreases b.len(),
{
    let c = b[i].0;
    reveal(Seq::filter);
    if i == b.len() - 1 {
        assert(b.remove(i) =~= b.drop_last());
        lemma_unbind_absent(b.drop_last(), c);
    } else {
        let d = b.drop_last();
        assert(unique_clients(d));
        lemma_unbind_remove(d, i);
        assert(b.last().0 != c);
        assert(b.remove(i) =~= d.remove(i).push(b.last()));
    }
}


/// A client bound to one session is attached to no other.
proof fn lemma_attached_only_where_bound(
    reg: Seq<SessionView>,
    b: Seq<(u128, u128)>,
    c: u128,
    s: u128,
)
    requires
        bindings_exact(reg, b),
        unique_clients(b),
        bound_to(b, c, s),
    ensures
        forall|i: int| 0 <= i < reg.len() && reg[i].id != s ==> !(#[trigger] reg[i].attached).contains(c),
{
    assert forall|i: int| 0 <= i < reg.len() && reg[i].id != s implies !(
    #[trigger] reg[i].attached).contains(c) by {
        if reg[i].attached.contains(c) {
            assert(bound_to(b, c, reg[i].id));
            let k1 = choose|k: int| 0 <= k < b.len() && b[k] == (c, s);
            let k2 = choose|k: int| 0 <= k < b.len() && b[k] == (c, reg[i].id);
            assert(k1 != k2);
        }
    }
}

/// Changes that keep every id and attached set keep the bindings exact.
proof fn lemma_exact_same(reg: Seq<SessionView>, reg2: Seq<SessionView>, b: Seq<(u128, u128)>)
    requires
        bindings_exact(reg, b),
        reg2.len() == reg.len(),
        forall|i: int| 0 <= i < reg.len() ==> (#[trigger] reg2[i]).id == reg[i].id && reg2[i].attached
            == reg[i].attached,
    ensures
        bindings_exact(reg2, b),
{
    assert forall|k: int| 0 <= k < b.len() implies has_id(reg2, (#[trigger] b[k]).1) by {
        let i = choose|i: int| 0 <= i < reg.len() && reg[i].id == b[k].1;
        assert(reg2[i].id == b[k].1);
    }
    assert forall|i: int, c: u128| 0 <= i < reg2.len() implies (#[trigger] reg2[i].attached.contains(
        c,
    ) <==> bound_to(b, c, reg2[i].id)) by {
        assert(reg[i].attached.contains(c) <==> bound_to(b, c, reg[i].id));
    }
}

proof fn lemma_bound_unbind(b: Seq<(u128, u128)>, c: u128, d: u128, s: u128)
    ensures
        bound_to(unbind(b, c), d, s) <==> (d != c && bound_to(b, d, s)),
{
    lemma_unbind_elems(b, c);
    let u = unbind(b, c);
    if bound_to(u, d, s) {
        let k = choose|k: int| 0 <= k < u.len() && u[k] == (d, s);
        assert(b.contains(u[k]));
    }
    if d != c && bound_to(b, d, s) {
        let k = choose|k: int| 0 <= k < b.len() && b[k] == (d, s);
        b.lemma_filter_contains(of_other_client(c), k);
        let j = choose|j: int| 0 <= j < u.len() && u[j] == b[k];
        assert(u[j] == (d, s));
    }
}

/// Taking a client out of every attached set and out of the bindings keeps them exact.
proof fn lemma_exact_detach(
    reg: Seq<SessionView>,
    reg2: Seq<SessionView>,
    b: Seq<(u128, u128)>,
    c: u128,
)
    requires
        bindings_exact(reg, b),
        reg2.len() == reg.len(),
        forall|i: int| 0 <= i < reg.len() ==> (#[trigger] reg2[i]).id == reg[i].id && reg2[i].attached
            == reg[i].attached.remove(c),
    ensures
        bindings_exact(reg2, unbind(b, c)),
{
    let u = unbind(b, c);
    lemma_unbind_elems(b, c);
    assert forall|k: int| 0 <= k < u.len() implies has_id(reg2, (#[trigger] u[k]).1) by {
        assert(u[k] == unbind(b, c)[k]);
        let m = choose|m: int| 0 <= m < b.len() && b[m] == u[k];
        assert(has_id(reg, b[m].1));
        let i = choose|i: int| 0 <= i < reg.len() && reg[i].id == b[m].1;
        assert(reg2[i].id == u[k].1);
    }
    assert forall|i: int, d: u128| 0 <= i < reg2.len() implies (#[trigger] reg2[i].attached.contains(
        d,
    ) <==> bound_to(u, d, reg2[i].id)) by {
        lemma_bound_unbind(b, c, d, reg[i].id);
        assert(reg[i].attached.contains(d) <==> bound_to(b, d, reg[i].id));
    }
}

/// Adding a client that is attached and bound nowhere to one session, and binding it
/// there, keeps the bindings exact.
proof fn lemma_exact_attach(
    reg: Seq<SessionView>,
    reg2: Seq<SessionView>,
    b: Seq<(u128, u128)>,
    c: u128,
    s: u128,
)
    requires
        bindings_exact(reg, b),
        forall|k: int| 0 <= k < b.len() ==> b[k].0 != c,
        has_id(reg, s),
        reg2.len() == reg.len(),
        forall|i: int|
            0 <= i < reg.len() ==> (#[trigger] reg2[i]).id == reg[i].id && reg2[i].attached == if reg[i].id
                == s {
                reg[i].attached.insert(c)
            } else {
                reg[i].attached
            },
    ensures
        bindings_exact(reg2, b.push((c, s))),
{
    let b2 = b.push((c, s));
    assert forall|k: int| 0 <= k < b2.len() implies has_id(reg2, (#[trigger] b2[k]).1) by {
        if k < b.len() {
            assert(b2[k] == b[k]);
            let i = choose|i: int| 0 <= i < reg.len() && reg[i].id == b[k].1;
            assert(reg2[i].id == b2[k].1);
        } else {
            let i = choose|i: int| 0 <= i < reg.len() && reg[i].id == s;
            assert(reg2[i].id == s);
        }
    }
    assert forall|i: int, d: u128| 0 <= i < reg2.len() implies (#[trigger] reg2[i].attached.contains(
        d,
    ) <==> bound_to(b2, d, reg2[i].id)) by {
        assert(reg[i].attached.contains(d) <==> bound_to(b, d, reg[i].id));
        if bound_to(b, d, reg[i].id) {
            let k = choose|k: int| 0 <= k < b.len() && b[k] == (d, reg[i].id);
            assert(b2[k] == b[k]);
        }
        if bound_to(b2, d, reg[i].id) {
            let k = choose|k: int| 0 <= k < b2.len() && b2[k] == (d, reg[i].id);
            if k < b.len() {
                assert(b[k] == b2[k]);
            }
        }
        if d == c {
            assert(!bound_to(b, c, reg[i].id));
            if reg[i].id == s {
                assert(b2[b.len() as int] == (c, s));
            }
        }
    }
}

/// A new session with no attached client keeps the bindings exact.
proof fn lemma_exact_push(reg: Seq<SessionView>, b: Seq<(u128, u128)>, v: SessionView)
    requires
        bindings_exact(reg, b),
        !has_id(reg, v.id),
        v.attached == Set::<u128>::empty(),
    ensures
        bindings_exact(reg.push(v), b),
{
    let reg2 = reg.push(v);
    assert forall|k: int| 0 <= k < b.len() implies has_id(reg2, (#[trigger] b[k]).1) by {
        let i = choose|i: int| 0 <= i < reg.len() && reg[i].id == b[k].1;
        assert(reg2[i] == reg[i]);
    }
    assert forall|i: int, d: u128| 0 <= i < reg2.len() implies (#[trigger] reg2[i].attached.contains(
        d,
    ) <==> bound_to(b, d, reg2[i].id)) by {
        if i < reg.len() {
            assert(reg2[i] == reg[i]);
            assert(reg[i].attached.contains(d) <==> bound_to(b, d, reg[i].id));
        } else {
            if bound_to(b, d, v.id) {
                let k = choose|k: int| 0 <= k < b.len() && b[k] == (d, v.id);
                assert(has_id(reg, b[k].1));
            }
        }
    }
}

/// Keeping some sessions, and the bindings to the sessions kept, keeps the bindings exact.
proof fn lemma_exact_filter(reg: Seq<SessionView>, p: spec_fn(SessionView) -> bool, b: Seq<(u128, u128)>)
    requires
        bindings_exact(reg, b),
        unique_ids(reg),
    ensures
        bindings_exact(reg.filter(p), prune(b, reg.filter(p))),
{
    let reg2 = reg.filter(p);
    let q = of_present(reg2);
    let b2 = b.filter(q);
    assert forall|k: int| 0 <= k < b2.len() implies has_id(reg2, (#[trigger] b2[k]).1) by {
        b.lemma_filter_pred(q, k);
    }
    assert forall|j: int, d: u128| 0 <= j < reg2.len() implies (#[trigger] reg2[j].attached.contains(
        d,
    ) <==> bound_to(b2, d, reg2[j].id)) by {
        reg.lemma_filter_contains_rev(p, reg2[j]);
        let m = choose|m: int| 0 <= m < reg.len() && reg[m] == reg2[j];
        assert(reg[m].attached.contains(d) <==> bound_to(b, d, reg[m].id));
        if bound_to(b, d, reg2[j].id) {
            let k = choose|k: int| 0 <= k < b.len() && b[k] == (d, reg2[j].id);
            assert(has_id(reg2, b[k].1));
            b.lemma_filter_contains(q, k);
            let t = choose|t: int| 0 <= t < b2.len() && b2[t] == b[k];
            assert(b2[t] == (d, reg2[j].id));
        }
        if bound_to(b2, d, reg2[j].id) {
            let t = choose|t: int| 0 <= t < b2.len() && b2[t] == (d, reg2[j].id);
            b.lemma_filter_contains_rev(q, b2[t]);
            let k = choose|k: int| 0 <= k < b.len() && b[k] == b2[t];
            assert(bound_to(b, d, reg[m].id));
        }
    }
}

impl PtyDaemon {
    /// The sessions of the registry.
    pub closed spec fn registry(&self) -> Seq<SessionView> {
        self.session_manager@
    }

    /// The client bindings, as (client, session) pairs.
    pub closed spec fn bindings(&self) -> Seq<(u128, u128)> {
        self.client_sessions@
    }

    pub closed spec fn orphan_timeout(&self) -> u64 {
        self.session_manager.orphan_timeout()
    }

    pub closed spec fn wf(&self) -> bool {
        &&& self.session_manager.wf()
        &&& unique_ids(self.session_manager@)
        &&& unique_clients(self.client_sessions@)
        &&& bindings_exact(self.session_manager@, self.client_sessions@)
    }

    /// A daemon with no sessions, whose sweep removes orphans idle for more than `seconds`.
    pub fn with_orphan_timeout(seconds: u64) -> (r: Self)
        ensures
            r.wf(),
            r.registry() == Seq::<SessionView>::empty(),
            r.bindings() == Seq::<(u128, u128)>::empty(),
            r.orphan_timeout() == seconds,
    {
        let r = PtyDaemon {
            session_manager: SessionManager::with_orphan_timeout(seconds),
            client_sessions: Vec::new(),
        };
        proof {
            r.session_manager.lemma_wf_unique();
        }
        r
    }

    /// A daemon with no sessions and the default orphan timeout.
    pub fn new() -> (r: Self)
        ensures
            r.wf(),
            r.registry() == Seq::<SessionView>::empty(),
            r.bindings() == Seq::<(u128, u128)>::empty(),
            r.orphan_timeout() == crate::registry::DEFAULT_ORPHAN_TIMEOUT_SECONDS,
    {
        Self::with_orphan_timeout(crate::registry::DEFAULT_ORPHAN_TIMEOUT_SECONDS)
    }

    /// The session registry, for reading.
    pub fn session_manager(&self) -> (r: &SessionManager)
        ensures
            r@ == self.registry(),
            r.orphan_timeout() == self.orphan_timeout(),
    {
        &self.session_manager
    }

    fn find_binding(&self, client_id: u128) -> (r: Option<usize>)
        ensures
            match r {
                Some(k) => k < self.bindings().len() && self.bindings()[k as int].0 == client_id,
                None => !is_bound(self.bindings(), client_id),
            },
    {
        let mut k: usize = 0;
        while k < self.client_sessions.len()
            invariant
                k <= self.client_sessions@.len(),
                forall|j: int| 0 <= j < k ==> self.client_sessions@[j].0 != client_id,
            decreases self.client_sessions@.len() - k,
        {
            if self.client_sessions[k].0 == client_id {
                return Some(k);
            }
            k = k + 1;
        }
        None
    }

    /// The session that the client's raw-bytes frames go to.
    pub fn binding_of(&self, client_id: u128) -> (r: Option<u128>)
        requires
            self.wf(),
        ensures
            r is None <==> !is_bound(self.bindings(), client_id),
            r matches Some(s) ==> bound_to(self.bindings(), client_id, s) && has_id(
                self.registry(),
                s,
            ),
    {
        match self.find_binding(client_id) {
            None => None,
            Some(k) => {
                let s = self.client_sessions[k].1;
                proof {
                    assert(self.client_sessions@[k as int] == (client_id, s));
                    assert(is_attached(self.registry(), s, client_id));
                }
                Some(s)
            },
        }
    }

    fn remove_binding(&mut self, client_id: u128)
        requires
            unique_clients(old(self).client_sessions@),
        ensures
            final(self).client_sessions@ == unbind(old(self).client_sessions@, client_id),
            unique_clients(final(self).client_sessions@),
            final(self).session_manager == old(self).session_manager,
    {
        let ghost b = self.client_sessions@;
        proof {
            lemma_filter_keeps_unique(b, of_other_client(client_id));
        }
        match self.find_binding(client_id) {
            None => {
                proof {
                    lemma_unbind_absent(b, client_id);
                }
            },
            Some(k) => {
                proof {
                    lemma_unbind_remove(b, k as int);
                }
                let _old = self.client_sessions.remove(k);
                assert(self.client_sessions@ =~= b.remove(k as int));
            },
        }
    }

    fn set_binding(&mut self, client_id: u128, session_id: u128)
        requires
            unique_clients(old(self).client_sessions@),
        ensures
            final(self).client_sessions@ == bind(old(self).client_sessions@, client_id, session_id),
            unique_clients(final(self).client_sessions@),
            final(self).session_manager == old(self).session_manager,
    {
        self.remove_binding(client_id);
        let ghost b = self.client_sessions@;
        proof {
            lemma_unbind_elems(old(self).client_sessions@, client_id);
            assert forall|k: int| 0 <= k < b.len() implies b[k].0 != client_id by {
                assert(b[k] == unbind(old(self).client_sessions@, client_id)[k]);
            }
        }
        self.client_sessions.push((client_id, session_id));
    }

    /// Drops every binding whose session has left the registry.
    fn prune_bindings(&mut self)
        requires
            unique_clients(old(self).client_sessions@),
        ensures
            final(self).client_sessions@ == prune(
                old(self).client_sessions@,
                old(self).session_manager@,
            ),
            unique_clients(final(self).client_sessions@),
            final(self).session_manager == old(self).session_manager,
    {
        let ghost b0 = self.client_sessions@;
        let ghost reg = self.session_manager@;
        let ghost p = of_present(reg);
        proof {
            lemma_filter_keeps_unique(b0, p);
        }
        let ghost mut k: int = 0;
        let mut i: usize = 0;
        while i < self.client_sessions.len()
            invariant
                self.session_manager == old(self).session_manager,
                reg == self.session_manager@,
                p == of_present(reg),
                0 <= k <= b0.len(),
                self.client_sessions@ == b0.subrange(0, k).filter(p) + b0.subrange(
                    k,
                    b0.len() as int,
                ),
                i == b0.subrange(0, k).filter(p).len(),
            decreases b0.len() - k,
        {
            proof {
                lemma_filter_step_pairs(b0, k, p);
                assert(self.client_sessions@[i as int] == b0[k]);
            }
            if !self.session_manager.has_session(self.client_sessions[i].1) {
                let ghost before = self.client_sessions@;
                let _gone = self.client_sessions.remove(i);
                assert(self.client_sessions@ =~= b0.subrange(0, k + 1).filter(p) + b0.subrange(
                    k + 1,
                    b0.len() as int,
                ));
            } else {
                i = i + 1;
                assert(self.client_sessions@ =~= b0.subrange(0, k + 1).filter(p) + b0.subrange(
                    k + 1,
                    b0.len() as int,
                ));
            }
            proof {
                k = k + 1;
            }
        }
        assert(b0.subrange(0, b0.len() as int) =~= b0);
        assert(self.client_sessions@ =~= b0.filter(p));
    }

    /// Handles one control message from the client of a connection. Creating a session
    /// takes a spawned shell: for a free id the outcome is `Spawn`, and the connection
    /// calls `complete_create` with the session.
    pub fn handle_client_message(&mut self, client_id: u128, message: ClientMessage, now: u64) -> (r:
        Outcome)
        requires
            old(self).wf(),
        ensures
            final(self).wf(),
            final(self).orphan_timeout() == old(self).orphan_timeout(),
            match message {
                ClientMessage::RegisterClient { client_id: c } => {
                    &&& r matches Outcome::Reply(DaemonMessage::ClientRegistered { client_id: x })
                        && x == c
                    &&& final(self).registry() == old(self).registry()
                    &&& final(self).bindings() == old(self).bindings()
                },
                ClientMessage::RegisterAndCreateSession { session_id, shell, working_directory } => {
                    &&& final(self).registry() == old(self).registry()
                    &&& final(self).bindings() == old(self).bindings()
                    &&& has_id(old(self).registry(), session_id) ==> is_error_reply(
                        r,
                        RegistryError::AlreadyExists,
                    )
                    &&& !has_id(old(self).registry(), session_id) ==> (r matches Outcome::Spawn {
                        session_id: s,
                        shell: sh,
                        working_directory: wd,
                    } && s == session_id && sh@ == shell@ && opt_string_view(wd) == opt_string_view(
                        working_directory,
                    ))
                },
                ClientMessage::AttachToSession { session_id, .. } => if has_id(
                    old(self).registry(),
                    session_id,
                ) {
                    &&& r is Silent
                    &&& final(self).registry() == attach_in(
                        detach_all(old(self).registry(), client_id, now),
                        session_id,
                        client_id,
                        now,
                    )
                    &&& final(self).bindings() == bind(old(self).bindings(), client_id, session_id)
                } else {
                    &&& is_error_reply(r, RegistryError::NotFound)
                    &&& final(self).registry() == old(self).registry()
                    &&& final(self).bindings() == old(self).bindings()
                },
                ClientMessage::DetachFromSession { session_id, .. } => if is_attached(
                    old(self).registry(),
                    session_id,
                    client_id,
                ) {
                    &&& r is Silent
                    &&& final(self).registry() == detach_in(old(self).registry(), session_id, client_id, now)
                    &&& final(self).bindings() == unbind(old(self).bindings(), client_id)
                } else {
                    &&& is_error_reply(
                        r,
                        if has_id(old(self).registry(), session_id) {
                            RegistryError::NotAttached
                        } else {
                            RegistryError::NotFound
                        },
                    )
                    &&& final(self).registry() == old(self).registry()
                    &&& final(self).bindings() == old(self).bindings()
                },
                ClientMessage::SendInput { session_id, data } => {
                    &&& final(self).bindings() == old(self).bindings()
                    &&& !has_id(old(self).registry(), session_id) ==> is_error_reply(
                        r,
                        RegistryError::NotFound,
                    )
                    &&& r is Silent ==> final(self).registry() == input_in(
                        old(self).registry(),
                        session_id,
                        data@,
                        now,
                    )
                    &&& !(r is Silent) ==> final(self).registry() == old(self).registry()
                    &&& has_id(old(self).registry(), session_id) && !(r is Silent) ==> is_error_reply(
                        r,
                        RegistryError::WorkerGone,
                    )
                },
                ClientMessage::ResizeSession { session_id, cols, rows } => {
                    &&& r is Silent ==> final(self).registry() == resize_in(
                        old(self).registry(),
                        session_id,
                        cols,
                        rows,
                    )
                    &&& !(r is Silent) ==> final(self).registry() == old(self).registry()
                    &&& final(self).bindings() == old(self).bindings()
                    &&& !has_id(old(self).registry(), session_id) ==> is_error_reply(
                        r,
                        RegistryError::NotFound,
                    )
                    &&& has_id(old(self).registry(), session_id) && !(r is Silent) ==> is_error_reply(
                        r,
                        RegistryError::WorkerGone,
                    )
                },
                ClientMessage::ReadOutput { session_id } => {
                    &&& final(self).bindings() == old(self).bindings()
                    &&& !has_id(old(self).registry(), session_id) ==> is_error_reply(
                        r,
                        RegistryError::NotFound,
                    ) && final(self).registry() == old(self).registry()
                    &&& has_id(old(self).registry(), session_id) ==> (r is Silent || (r matches Outcome::Reply(
                        DaemonMessage::SessionOutput { session_id: s, .. },
                    ) && s == session_id))
                    &&& r matches Outcome::Reply(DaemonMessage::SessionOutput { .. })
                        ==> final(self).registry() == touch_in(old(self).registry(), session_id, now)
                    &&& r is Silent ==> final(self).registry() == old(self).registry() || final(self).registry() == close_in(old(self).registry(), session_id)
                },
                ClientMessage::ListSessions => {
                    &&& r matches Outcome::Reply(DaemonMessage::SessionList { sessions }) && sessions@.len()
                        == old(self).registry().len() && forall|i: int|
                        0 <= i < sessions@.len() ==> info_matches(
                            #[trigger] sessions@[i],
                            old(self).registry()[i],
                        )
                    &&& final(self).registry() == old(self).registry()
                    &&& final(self).bindings() == old(self).bindings()
                },
                ClientMessage::TerminateSession { session_id } => if has_id(
                    old(self).registry(),
                    session_id,
                ) {
                    &&& r matches Outcome::Reply(DaemonMessage::SessionTerminated { session_id: s })
                        && s == session_id
                    &&& final(self).registry() == remove_id(old(self).registry(), session_id)
                    &&& final(self).bindings() == prune(old(self).bindings(), final(self).registry())
                } else {
                    &&& is_error_reply(r, RegistryError::NotFound)
                    &&& final(self).registry() == old(self).registry()
                    &&& final(self).bindings() == old(self).bindings()
                },
                ClientMessage::Disconnect { .. } => {
                    &&& r is Silent
                    &&& final(self).registry() == detach_all(old(self).registry(), client_id, now)
                    &&& final(self).bindings() == unbind(old(self).bindings(), client_id)
                },
            },
    {
        proof {
            self.session_manager.lemma_wf_unique();
        }
        let ghost reg0 = self.session_manager@;
        let ghost b0 = self.client_sessions@;
        match message {
            ClientMessage::RegisterClient { client_id: c } => {
                Outcome::Reply(DaemonMessage::ClientRegistered { client_id: c })
            },
            ClientMessage::RegisterAndCreateSession { session_id, shell, working_directory } => {
                if self.session_manager.has_session(session_id) {
                    error_reply(RegistryError::AlreadyExists)
                } else {
                    Outcome::Spawn { session_id, shell, working_directory }
                }
            },
            ClientMessage::AttachToSession { session_id, .. } => {
                if !self.session_manager.has_session(session_id) {
                    return error_reply(RegistryError::NotFound);
                }
                self.rebind(client_id, session_id, now);
                Outcome::Silent
            },
            ClientMessage::DetachFromSession { session_id, .. } => {
                let c = client_id;
                match self.session_manager.detach_client_from_session(session_id, c, now) {
                    Ok(()) => {
                        proof {
                            let i = choose|i: int|
                                0 <= i < reg0.len() && reg0[i].id == session_id
                                    && reg0[i].attached.contains(c);
                            assert(bound_to(b0, c, session_id));
                            lemma_attached_only_where_bound(reg0, b0, c, session_id);
                        }
                        self.remove_binding(c);
                        proof {
                            self.session_manager.lemma_wf_unique();
                            let reg = self.session_manager@;
                            assert forall|j: int| 0 <= j < reg0.len() implies (#[trigger] reg[j]).id
                                == reg0[j].id && reg[j].attached == reg0[j].attached.remove(c) by {
                                if reg0[j].id != session_id {
                                    assert(reg0[j].attached.remove(c) =~= reg0[j].attached);
                                }
                            }
                            lemma_exact_detach(reg0, reg, b0, c);
                        }
                        Outcome::Silent
                    },
                    Err(e) => error_reply(e),
                }
            },
            ClientMessage::SendInput { session_id, data } => {
                match self.session_manager.send_input_to_session(session_id, data.as_slice(), now) {
                    Ok(()) => {
                        proof {
                            self.session_manager.lemma_wf_unique();
                            lemma_exact_same(reg0, self.session_manager@, b0);
                        }
                        Outcome::Silent
                    },
                    Err(e) => error_reply(e),
                }
            },
            ClientMessage::ResizeSession { session_id, cols, rows } => {
                match self.session_manager.resize_session(session_id, cols, rows) {
                    Ok(()) => {
                        proof {
                            self.session_manager.lemma_wf_unique();
                            lemma_exact_same(reg0, self.session_manager@, b0);
                        }
                        Outcome::Silent
                    },
                    Err(e) => error_reply(e),
                }
            },
            ClientMessage::ReadOutput { session_id } => {
                let out = self.session_manager.read_output_from_session(session_id, now);
                proof {
                    self.session_manager.lemma_wf_unique();
                    lemma_exact_same(reg0, self.session_manager@, b0);
                }
                match out {
                    Ok(Some(data)) => Outcome::Reply(DaemonMessage::SessionOutput { session_id, data }),
                    Ok(None) => Outcome::Silent,
                    Err(e) => error_reply(e),
                }
            },
            ClientMessage::ListSessions => {
                let sessions = self.session_manager.list_sessions();
                Outcome::Reply(DaemonMessage::SessionList { sessions })
            },
            ClientMessage::TerminateSession { session_id } => {
                match self.session_manager.terminate_session(session_id) {
                    Ok(()) => {
                        self.prune_bindings();
                        proof {
                            self.session_manager.lemma_wf_unique();
                            lemma_exact_filter(reg0, |v: SessionView| v.id != session_id, b0);
                        }
                        Outcome::Reply(DaemonMessage::SessionTerminated { session_id })
                    },
                    Err(e) => error_reply(e),
                }
            },
            ClientMessage::Disconnect { .. } => {
                self.unbind_everywhere(client_id, now);
                Outcome::Silent
            },
        }
    }

    /// Detaches the client from every session and drops its binding.
    fn unbind_everywhere(&mut self, client_id: u128, now: u64)
        requires
            old(self).wf(),
        ensures
            final(self).wf(),
            final(self).orphan_timeout() == old(self).orphan_timeout(),
            final(self).registry() == detach_all(old(self).registry(), client_id, now),
            final(self).bindings() == unbind(old(self).bindings(), client_id),
    {
        let ghost reg0 = self.session_manager@;
        let ghost b0 = self.client_sessions@;
        self.remove_binding(client_id);
        self.session_manager.detach_client_everywhere(client_id, now);
        proof {
            self.session_manager.lemma_wf_unique();
            let reg = self.session_manager@;
            assert forall|j: int| 0 <= j < reg0.len() implies (#[trigger] reg[j]).id == reg0[j].id
                && reg[j].attached == reg0[j].attached.remove(client_id) by {
                if !reg0[j].attached.contains(client_id) {
                    assert(reg0[j].attached.remove(client_id) =~= reg0[j].attached);
                }
            }
            lemma_exact_detach(reg0, reg, b0, client_id);
        }
    }

    /// Moves the client to the session: it leaves whatever session it was in, is attached
    /// to this one, and is bound to it.
    fn rebind(&mut self, client_id: u128, session_id: u128, now: u64)
        requires
            old(self).wf(),
            has_id(old(self).registry(), session_id),
        ensures
            final(self).wf(),
            final(self).orphan_timeout() == old(self).orphan_timeout(),
            final(self).registry() == attach_in(
                detach_all(old(self).registry(), client_id, now),
                session_id,
                client_id,
                now,
            ),
            final(self).bindings() == bind(old(self).bindings(), client_id, session_id),
    {
        let ghost b0 = self.client_sessions@;
        self.unbind_everywhere(client_id, now);
        let ghost reg1 = self.session_manager@;
        let ghost b1 = self.client_sessions@;
        proof {
            let i = choose|i: int| 0 <= i < old(self).registry().len() && old(self).registry()[i].id
                == session_id;
            assert(reg1[i].id == session_id);
        }
        let attached = self.session_manager.attach_client_to_session(session_id, client_id, now);
        self.client_sessions.push((client_id, session_id));
        proof {
            self.session_manager.lemma_wf_unique();
            lemma_unbind_elems(b0, client_id);
            assert forall|k: int| 0 <= k < b1.len() implies b1[k].0 != client_id by {
                assert(b1[k] == unbind(b0, client_id)[k]);
            }
            lemma_unbind_absent(b1, client_id);
            let reg = self.session_manager@;
            assert forall|j: int| 0 <= j < reg1.len() implies (#[trigger] reg[j]).id == reg1[j].id
                && reg[j].attached == if reg1[j].id == session_id {
                reg1[j].attached.insert(client_id)
            } else {
                reg1[j].attached
            } by {}
            lemma_exact_attach(reg1, reg, b1, client_id, session_id);
            assert(unique_clients(self.client_sessions@));
        }
    }

    /// Registers a session whose shell was spawned for `Spawn`, and moves the requesting
    /// client to it. An id taken meanwhile is an error, and the session is dropped, which
    /// stops its workers.
    pub fn complete_create(&mut self, client_id: u128, session: PtySession, now: u64) -> (r:
        DaemonMessage)
        requires
            old(self).wf(),
            session.wf(),
            session@.attached == Set::<u128>::empty(),
        ensures
            final(self).wf(),
            final(self).orphan_timeout() == old(self).orphan_timeout(),
            has_id(old(self).registry(), session@.id) ==> is_error_message(
                r,
                RegistryError::AlreadyExists,
            ) && final(self).registry() == old(self).registry() && final(self).bindings() == old(self).bindings(),
            !has_id(old(self).registry(), session@.id) ==> (r matches DaemonMessage::SessionCreated {
                session_id,
            } && session_id == session@.id) && final(self).registry() == attach_in(
                detach_all(old(self).registry().push(session@), client_id, now),
                session@.id,
                client_id,
                now,
            ) && final(self).bindings() == bind(old(self).bindings(), client_id, session@.id),
    {
        let ghost reg0 = self.session_manager@;
        let ghost b0 = self.client_sessions@;
        let ghost v = session@;
        let session_id = session.id;
        match self.session_manager.create_session(session) {
            Err(e) => DaemonMessage::Error { message: error_message(e) },
            Ok(()) => {
                proof {
                    self.session_manager.lemma_wf_unique();
                    lemma_exact_push(reg0, b0, v);
                    assert(self.session_manager@[reg0.len() as int].id == session_id);
                }
                self.rebind(client_id, session_id, now);
                DaemonMessage::SessionCreated { session_id }
            },
        }
    }

    /// Delivers the bytes of a raw-bytes frame to the session the client is bound to.
    /// Without a binding, or when the session's worker is gone, nothing changes and
    /// `false` is returned.
    pub fn route_input(&mut self, client_id: u128, data: &[u8], now: u64) -> (r: bool)
        requires
            old(self).wf(),
        ensures
            final(self).wf(),
            final(self).orphan_timeout() == old(self).orphan_timeout(),
            final(self).bindings() == old(self).bindings(),
            !is_bound(old(self).bindings(), client_id) ==> !r,
            !r ==> final(self).registry() == old(self).registry(),
            r ==> exists|s: u128|
                bound_to(old(self).bindings(), client_id, s) && final(self).registry() == input_in(
                    old(self).registry(),
                    s,
                    data@,
                    now,
                ),
    {
        let ghost reg0 = self.session_manager@;
        let ghost b0 = self.client_sessions@;
        match self.binding_of(client_id) {
            None => false,
            Some(s) => match self.session_manager.send_input_to_session(s, data, now) {
                Ok(()) => {
                    proof {
                        self.session_manager.lemma_wf_unique();
                        lemma_exact_same(reg0, self.session_manager@, b0);
                    }
                    true
                },
                Err(_) => false,
            },
        }
    }

    /// Takes one pending chunk of output of the session the client is bound to, for the
    /// connection's output pusher.
    pub fn next_output(&mut self, client_id: u128, now: u64) -> (r: Option<Vec<u8>>)
        requires
            old(self).wf(),
        ensures
            final(self).wf(),
            final(self).orphan_timeout() == old(self).orphan_timeout(),
            final(self).bindings() == old(self).bindings(),
            !is_bound(old(self).bindings(), client_id) ==> r is None && final(self).registry()
                == old(self).registry(),
            r is Some ==> exists|s: u128|
                bound_to(old(self).bindings(), client_id, s) && final(self).registry() == touch_in(
                    old(self).registry(),
                    s,
                    now,
                ),
            r is None ==> final(self).registry() == old(self).registry() || exists|s: u128|
                bound_to(old(self).bindings(), client_id, s) && final(self).registry() == close_in(
                    old(self).registry(),
                    s,
                ),
    {
        match self.binding_of(client_id) {
            None => None,
            Some(s) => match self.session_manager.poll_session_output(s) {
                None => None,
                Some(polled) => self.apply_output(client_id, polled, now),
            },
        }
    }

    /// What a look at the output channel of the client's bound session means: a chunk is
    /// returned and refreshes the session's activity time; nothing pending changes
    /// nothing; an ended output marks the session closed. Without a binding nothing
    /// changes.
    pub fn apply_output(&mut self, client_id: u128, p: OutputPoll, now: u64) -> (r: Option<Vec<u8>>)
        requires
            old(self).wf(),
        ensures
            final(self).wf(),
            final(self).orphan_timeout() == old(self).orphan_timeout(),
            final(self).bindings() == old(self).bindings(),
            !is_bound(old(self).bindings(), client_id) ==> r is None && final(self).registry()
                == old(self).registry(),
            forall|s: u128|
                #[trigger] bound_to(old(self).bindings(), client_id, s) ==> {
                    &&& p matches OutputPoll::Chunk(d) ==> (r matches Some(x) && x@ == d@)
                        && final(self).registry() == touch_in(old(self).registry(), s, now)
                    &&& p is Empty ==> r is None && final(self).registry() == old(self).registry()
                    &&& p is Closed ==> r is None && final(self).registry() == close_in(
                        old(self).registry(),
                        s,
                    )
                },
    {
        let ghost reg0 = self.session_manager@;
        let ghost b0 = self.client_sessions@;
        match self.binding_of(client_id) {
            None => None,
            Some(s) => {
                proof {
                    assert forall|t: u128| #[trigger] bound_to(b0, client_id, t) implies t == s by {
                        let k1 = choose|k: int| 0 <= k < b0.len() && b0[k] == (client_id, t);
                        let k2 = choose|k: int| 0 <= k < b0.len() && b0[k] == (client_id, s);
                        assert(k1 == k2);
                    }
                }
                let out = self.session_manager.apply_output_poll(s, p, now);
                proof {
                    self.session_manager.lemma_wf_unique();
                    lemma_exact_same(reg0, self.session_manager@, b0);
                }
                match out {
                    Ok(Some(data)) => Some(data),
                    _ => None,
                }
            },
        }
    }

    /// Runs the orphan sweep, then drops the bindings to sessions it removed.
    pub fn cleanup_orphaned_sessions(&mut self, now: u64)
        requires
            old(self).wf(),
        ensures
            final(self).wf(),
            final(self).orphan_timeout() == old(self).orphan_timeout(),
            final(self).registry() == sweep(old(self).registry(), old(self).orphan_timeout(), now),
            final(self).bindings() == prune(old(self).bindings(), final(self).registry()),
    {
        let ghost reg0 = self.session_manager@;
        let ghost b0 = self.client_sessions@;
        self.session_manager.cleanup_orphaned_sessions(now);
        self.prune_bindings();
        proof {
            self.session_manager.lemma_wf_unique();
            lemma_exact_filter(
                reg0,
                |v: SessionView| !v.expired(self.session_manager.orphan_timeout(), now),
                b0,
            );
        }
    }
}

/// Each session's attached set is exactly the set of clients bound to it, so the number
/// of attached clients equals the number of bindings pointing to the session.
pub proof fn lemma_bindings_match_attached(d: &PtyDaemon)
    requires
        d.wf(),
    ensures
        forall|i: int|
            0 <= i < d.registry().len() ==> bound_clients(d.bindings(), d.registry()[i].id)
                == #[trigger] d.registry()[i].attached,
        forall|k: int| 0 <= k < d.bindings().len() ==> has_id(d.registry(), (#[trigger] d.bindings()[k]).1),
{
    let reg = d.registry();
    let b = d.bindings();
    assert forall|i: int| 0 <= i < reg.len() implies bound_clients(b, reg[i].id)
        == #[trigger] reg[i].attached by {
        assert(bound_clients(b, reg[i].id) =~= reg[i].attached);
    }
}

/// Moving a client to a session a second time, at the same time, changes nothing more:
/// the registry is as after the first move.
pub proof fn lemma_rebind_idempotent(reg: Seq<SessionView>, session_id: u128, client_id: u128, now: u64)
    ensures
        attach_in(
            detach_all(attach_in(detach_all(reg, client_id, now), session_id, client_id, now), client_id, now),
            session_id,
            client_id,
            now,
        ) == attach_in(detach_all(reg, client_id, now), session_id, client_id, now),
{
    let once = attach_in(detach_all(reg, client_id, now), session_id, client_id, now);
    let twice = attach_in(detach_all(once, client_id, now), session_id, client_id, now);
    assert forall|i: int| 0 <= i < reg.len() implies twice[i] == once[i] by {
        let d = detach_all(reg, client_id, now)[i];
        if reg[i].id == session_id {
            assert(once[i] == d.attach(client_id, now));
            assert(once[i].attached.contains(client_id));
            assert(once[i].attached.remove(client_id).insert(client_id) =~= once[i].attached);
        } else {
            assert(!d.attached.contains(client_id));
        }
    }
    assert(twice =~= once);
}

/// Binding a client to a session a second time leaves the bindings as binding it once.
pub proof fn lemma_bind_idempotent(b: Seq<(u128, u128)>, client_id: u128, session_id: u128)
    ensures
        bind(bind(b, client_id, session_id), client_id, session_id) == bind(b, client_id, session_id),
{
    let u = unbind(b, client_id);
    lemma_unbind_elems(b, client_id);
    assert forall|j: int| 0 <= j < u.len() implies u[j].0 != client_id by {
        assert(u[j] == unbind(b, client_id)[j]);
    }
    lemma_unbind_absent(u, client_id);
    reveal(Seq::filter);
    assert(u.push((client_id, session_id)).drop_last() =~= u);
    assert(unbind(u.push((client_id, session_id)), client_id) == unbind(u, client_id));
}

} // verus!
